//! Deduplication of null-terminated strings from sections that are marked as
//! holding mergeable strings.

use crate::error::Error;
use crate::hash::{hash_bytes, hash_of, PreHashed};
use vstd::prelude::*;

verus! {

/// Into how many buckets the strings of one output section are divided.
pub const MERGE_STRING_BUCKETS: usize = 32;

/// A string of a section of mergeable strings, with its terminator.
#[derive(PartialEq, Eq, Clone, Copy, Debug)]
pub struct StringToMerge<'data> {
    pub bytes: &'data [u8],
}

/// The total length of the first `limit` of `strings`.
pub open spec fn total_len(strings: Seq<Seq<u8>>, limit: int) -> int
    decreases limit,
{
    if limit <= 0 {
        0
    } else {
        total_len(strings, limit - 1) + strings[limit - 1].len()
    }
}

/// The position of the first of the first `limit` of `strings` that equals
/// `string`, or `limit` if none of them does.
pub open spec fn position_of(strings: Seq<Seq<u8>>, string: Seq<u8>, limit: int) -> int
    decreases limit,
{
    if limit <= 0 {
        0
    } else {
        let before = position_of(strings, string, limit - 1);
        if before < limit - 1 {
            before
        } else if strings[limit - 1] == string {
            limit - 1
        } else {
            limit
        }
    }
}

/// What `position_of` finds equals the string, and nothing before it does.
pub proof fn lemma_position_of(strings: Seq<Seq<u8>>, string: Seq<u8>, limit: int)
    requires
        0 <= limit <= strings.len(),
    ensures
        0 <= position_of(strings, string, limit) <= limit,
        position_of(strings, string, limit) < limit ==> strings[position_of(strings, string, limit)]
            == string,
        forall|k: int| 0 <= k < position_of(strings, string, limit) ==> #[trigger] strings[k] != string,
    decreases limit,
{
    if limit > 0 {
        lemma_position_of(strings, string, limit - 1);
    }
}

/// Neither the total length nor the position of a string among the first
/// `limit` strings depends on what follows them.
pub proof fn lemma_prefix(a: Seq<Seq<u8>>, b: Seq<Seq<u8>>, string: Seq<u8>, limit: int)
    requires
        0 <= limit <= a.len() <= b.len(),
        forall|k: int| 0 <= k < limit ==> a[k] == b[k],
    ensures
        total_len(a, limit) == total_len(b, limit),
        position_of(a, string, limit) == position_of(b, string, limit),
    decreases limit,
{
    if limit > 0 {
        lemma_prefix(a, b, string, limit - 1);
    }
}

/// The total length grows with the number of strings.
pub proof fn lemma_total_len_monotonic(strings: Seq<Seq<u8>>, i: int, j: int)
    requires
        0 <= i <= j <= strings.len(),
    ensures
        0 <= total_len(strings, i) <= total_len(strings, j),
    decreases j,
{
    if i < j {
        lemma_total_len_monotonic(strings, i, j - 1);
    } else if j > 0 {
        lemma_total_len_monotonic(strings, i - 1, j - 1);
    }
}

/// `strings` with `string` appended, unless it holds it already.
pub open spec fn with_string(strings: Seq<Seq<u8>>, string: Seq<u8>) -> Seq<Seq<u8>> {
    if position_of(strings, string, strings.len() as int) < strings.len() {
        strings
    } else {
        strings.push(string)
    }
}

/// The unique strings of one bucket of an output section, in the order in
/// which they were first added, each with its offset within the bucket.
///
/// Its view is the sequence of strings.
#[derive(Debug)]
pub struct MergeStringsSectionBucket<'data> {
    /// The strings in order, with their terminators.
    pub strings: Vec<&'data [u8]>,
    /// The offset within the bucket of the next string to be added: the
    /// size of the bucket.
    pub next_offset: u64,
    /// The total size of all strings that were added, duplicates too.
    pub totally_added: usize,
    /// How many strings were added, duplicates too.
    pub totally_added_strings: usize,
    /// The offset within the bucket of each string of `strings`.
    pub string_offsets: Vec<u64>,
}

impl<'data> View for MergeStringsSectionBucket<'data> {
    type V = Seq<Seq<u8>>;

    open spec fn view(&self) -> Seq<Seq<u8>> {
        self.strings@.map_values(|s: &[u8]| s@)
    }
}

impl<'data> Default for MergeStringsSectionBucket<'data> {
    /// The empty bucket.
    fn default() -> (r: Self)
        ensures
            r.wf(),
            r@.len() == 0,
            r.next_offset == 0,
            r.totally_added == 0,
            r.totally_added_strings == 0,
    {
        MergeStringsSectionBucket {
            strings: Vec::new(),
            next_offset: 0,
            totally_added: 0,
            totally_added_strings: 0,
            string_offsets: Vec::new(),
        }
    }
}

impl<'data> MergeStringsSectionBucket<'data> {
    /// No string occurs twice, each string starts where the one before it
    /// ends, and the bucket is as large as its strings together.
    pub open spec fn wf(&self) -> bool {
        &&& self.string_offsets@.len() == self@.len()
        &&& forall|i: int| 0 <= i < self@.len() ==> #[trigger] self.string_offsets@[i] == total_len(self@, i)
        &&& self.next_offset == total_len(self@, self@.len() as int)
        &&& forall|i: int, j: int| 0 <= i < j < self@.len() ==> #[trigger] self@[i] != #[trigger] self@[j]
    }

    /// The offset within the bucket of `string`, if the bucket holds it.
    pub open spec fn offset_of(&self, string: Seq<u8>) -> Option<u64> {
        let position = position_of(self@, string, self@.len() as int);
        if position < self@.len() {
            Some(total_len(self@, position) as u64)
        } else {
            None
        }
    }

    /// The position in `strings` of `string`, or the number of strings if
    /// the bucket does not hold it.
    fn find(&self, string: &[u8]) -> (r: usize)
        ensures
            r == position_of(self@, string@, self@.len() as int),
            r <= self@.len(),
    {
        let mut k: usize = 0;
        while k < self.strings.len()
            invariant
                k <= self@.len(),
                self@.len() == self.strings@.len(),
                position_of(self@, string@, k as int) == k,
            decreases self@.len() - k,
        {
            if crate::output_section_id::bytes_equal(self.strings[k], string) {
                proof {
                    lemma_found(self@, string@, k as int, self@.len() as int);
                }
                return k;
            }
            k = k + 1;
        }
        k
    }

    /// Adds `string`, unless the bucket holds an equal string already, and
    /// returns the offset within the bucket of the string or of the one that
    /// equals it.
    pub fn add_string(&mut self, string: PreHashed<StringToMerge<'data>>) -> (offset: u64)
        requires
            old(self).wf(),
            old(self).totally_added + string.value.bytes@.len() <= usize::MAX,
            old(self).totally_added_strings < usize::MAX,
            old(self).offset_of(string.value.bytes@).is_none() ==> old(self).next_offset
                + string.value.bytes@.len() <= u64::MAX,
        ensures
            final(self).wf(),
            final(self)@ == with_string(old(self)@, string.value.bytes@),
            final(self).offset_of(string.value.bytes@) == Some(offset),
            old(self).offset_of(string.value.bytes@) matches Some(known) ==> offset == known
                && final(self).strings@ == old(self).strings@,
            old(self).offset_of(string.value.bytes@).is_none() ==> offset == old(self).next_offset
                && final(self).strings@ == old(self).strings@.push(string.value.bytes),
            final(self).next_offset == if old(self).offset_of(string.value.bytes@).is_none() {
                old(self).next_offset + string.value.bytes@.len()
            } else {
                old(self).next_offset as int
            },
            final(self).totally_added == old(self).totally_added + string.value.bytes@.len(),
            final(self).totally_added_strings == old(self).totally_added_strings + 1,
    {
        self.totally_added = self.totally_added + string.value.bytes.len();
        self.totally_added_strings = self.totally_added_strings + 1;
        let position = self.find(string.value.bytes);
        if position < self.strings.len() {
            self.string_offsets[position]
        } else {
            let offset = self.next_offset;
            let ghost before = self@;
            self.next_offset = self.next_offset + string.value.bytes.len() as u64;
            self.strings.push(string.value.bytes);
            self.string_offsets.push(offset);
            proof {
                let after = self@;
                assert(after =~= before.push(string.value.bytes@));
                lemma_position_of(before, string.value.bytes@, before.len() as int);
                assert forall|i: int| 0 <= i <= before.len() implies total_len(after, i) == total_len(
                    before,
                    i,
                ) && position_of(after, string.value.bytes@, i) == position_of(
                    before,
                    string.value.bytes@,
                    i,
                ) by {
                    lemma_prefix(before, after, string.value.bytes@, i);
                }
            }
            offset
        }
    }

    /// The offset within the bucket of `string`, if the bucket holds it.
    pub fn get(&self, string: &PreHashed<StringToMerge<'data>>) -> (r: Option<u64>)
        requires
            self.wf(),
        ensures
            r == self.offset_of(string.value.bytes@),
    {
        let position = self.find(string.value.bytes);
        if position < self.strings.len() {
            Some(self.string_offsets[position])
        } else {
            None
        }
    }

    /// The size of the bucket: the total length of its strings.
    pub fn len(&self) -> (r: u64)
        ensures
            r == self.next_offset,
    {
        self.next_offset
    }
}

/// Once a string has been found, looking further finds the same one.
pub proof fn lemma_found(strings: Seq<Seq<u8>>, string: Seq<u8>, k: int, limit: int)
    requires
        0 <= k < limit <= strings.len(),
        position_of(strings, string, k) == k,
        strings[k] == string,
    ensures
        position_of(strings, string, limit) == k,
    decreases limit,
{
    if limit > k + 1 {
        lemma_found(strings, string, k, limit - 1);
    }
}

/// The bucket that a string with the hash `hash` belongs to.
pub open spec fn bucket_of(hash: u64) -> int {
    hash as int % MERGE_STRING_BUCKETS as int
}

/// The bucket that a string with the hash `hash` belongs to.
pub fn bucket_index(hash: u64) -> (r: usize)
    ensures
        r == bucket_of(hash),
        r < MERGE_STRING_BUCKETS,
{
    (hash % 32) as usize
}

/// The total size of the first `b` of `buckets`.
pub open spec fn start_of(buckets: Seq<MergeStringsSectionBucket>, b: int) -> int
    decreases b,
{
    if b <= 0 {
        0
    } else {
        start_of(buckets, b - 1) + buckets[b - 1].next_offset
    }
}

proof fn lemma_empty_start(buckets: Seq<MergeStringsSectionBucket>, b: int)
    requires
        0 <= b <= buckets.len(),
        forall|k: int| 0 <= k < buckets.len() ==> (#[trigger] buckets[k]).next_offset == 0,
    ensures
        start_of(buckets, b) == 0,
    decreases b,
{
    if b > 0 {
        lemma_empty_start(buckets, b - 1);
    }
}

/// Buckets start one after the other.
pub proof fn lemma_start_of_monotonic(buckets: Seq<MergeStringsSectionBucket>, a: int, b: int)
    requires
        0 <= a <= b <= buckets.len(),
    ensures
        0 <= start_of(buckets, a) <= start_of(buckets, b),
    decreases b,
{
    if a < b {
        lemma_start_of_monotonic(buckets, a, b - 1);
    } else if b > 0 {
        lemma_start_of_monotonic(buckets, a - 1, b - 1);
    }
}

/// The sum of `part` over the first `limit` of `buckets`.
pub open spec fn sum_over(
    buckets: Seq<MergeStringsSectionBucket>,
    part: spec_fn(MergeStringsSectionBucket) -> nat,
    limit: int,
) -> nat
    decreases limit,
{
    if limit <= 0 {
        0
    } else {
        sum_over(buckets, part, limit - 1) + part(buckets[limit - 1])
    }
}

/// The sum over more buckets is no smaller.
pub proof fn lemma_sum_over_monotonic(
    buckets: Seq<MergeStringsSectionBucket>,
    part: spec_fn(MergeStringsSectionBucket) -> nat,
    a: int,
    b: int,
)
    requires
        0 <= a <= b <= buckets.len(),
    ensures
        sum_over(buckets, part, a) <= sum_over(buckets, part, b),
    decreases b,
{
    if a < b {
        lemma_sum_over_monotonic(buckets, part, a, b - 1);
    }
}

/// The merged strings of one output section, divided into buckets by their
/// hash. In the output the buckets follow one another.
#[derive(Debug)]
pub struct MergeStringsSection<'data> {
    /// The buckets, by the hash of the strings that they hold.
    pub buckets: Vec<MergeStringsSectionBucket<'data>>,
    /// The offset of each bucket in the output section.
    pub bucket_offsets: Vec<u64>,
}

impl<'data> Default for MergeStringsSection<'data> {
    /// The section without strings.
    fn default() -> (r: Self)
        ensures
            r.laid_out(),
            forall|b: int|
                0 <= b < MERGE_STRING_BUCKETS ==> {
                    &&& (#[trigger] r.buckets@[b])@.len() == 0
                    &&& r.buckets@[b].next_offset == 0
                    &&& r.buckets@[b].totally_added == 0
                    &&& r.buckets@[b].totally_added_strings == 0
                },
            r.size() == 0,
    {
        let mut buckets: Vec<MergeStringsSectionBucket<'data>> = Vec::new();
        let mut bucket_offsets: Vec<u64> = Vec::new();
        while buckets.len() < MERGE_STRING_BUCKETS
            invariant
                buckets@.len() == bucket_offsets@.len(),
                buckets@.len() <= MERGE_STRING_BUCKETS,
                forall|b: int|
                    0 <= b < buckets@.len() ==> (#[trigger] buckets@[b]).wf() && buckets@[b]@.len() == 0
                        && buckets@[b].next_offset == 0 && bucket_offsets@[b] == 0
                        && buckets@[b].totally_added == 0 && buckets@[b].totally_added_strings == 0,
            decreases MERGE_STRING_BUCKETS - buckets@.len(),
        {
            buckets.push(MergeStringsSectionBucket::default());
            bucket_offsets.push(0);
        }
        proof {
            assert forall|b: int| 0 <= b < MERGE_STRING_BUCKETS implies #[trigger] bucket_offsets@[b]
                == start_of(buckets@, b) by {
                assert(buckets@[b].next_offset == 0);
                lemma_empty_start(buckets@, b);
            }
        }
        MergeStringsSection { buckets, bucket_offsets }
    }
}

impl<'data> MergeStringsSection<'data> {
    /// There are `MERGE_STRING_BUCKETS` buckets, each well-formed.
    pub open spec fn wf(&self) -> bool {
        &&& self.buckets@.len() == MERGE_STRING_BUCKETS
        &&& self.bucket_offsets@.len() == MERGE_STRING_BUCKETS
        &&& forall|b: int| 0 <= b < MERGE_STRING_BUCKETS ==> (#[trigger] self.buckets@[b]).wf()
    }

    /// Where the bucket `b` starts in the output section: the total size of
    /// the buckets before it.
    pub open spec fn bucket_start(&self, b: int) -> int {
        start_of(self.buckets@, b)
    }

    /// The size of the output section: the total size of the buckets.
    pub open spec fn size(&self) -> int {
        self.bucket_start(MERGE_STRING_BUCKETS as int)
    }

    /// The section is well-formed, each bucket has been given the offset at
    /// which it starts, and the section's size fits its offsets.
    pub open spec fn laid_out(&self) -> bool {
        &&& self.wf()
        &&& forall|b: int|
            0 <= b < MERGE_STRING_BUCKETS ==> #[trigger] self.bucket_offsets@[b] == self.bucket_start(b)
        &&& self.size() <= u64::MAX
    }

    /// The offset in the output section of `string`, if the section holds it.
    pub open spec fn offset_of(&self, string: Seq<u8>, hash: u64) -> Option<u64> {
        match self.buckets@[bucket_of(hash)].offset_of(string) {
            Some(offset) => Some((self.bucket_start(bucket_of(hash)) + offset) as u64),
            None => None,
        }
    }

    /// The offset in the output section of `string`, if the section holds
    /// it: the offset of the string's bucket plus the offset of the string
    /// within the bucket.
    pub fn get(&self, string: &PreHashed<StringToMerge<'data>>) -> (r: Option<u64>)
        requires
            self.laid_out(),
        ensures
            r == self.offset_of(string.value.bytes@, string.hash),
    {
        let bucket_index = bucket_index(string.hash());
        match self.buckets[bucket_index].get(string) {
            Some(offset) => {
                proof {
                    let bucket = self.buckets@[bucket_index as int];
                    let position = position_of(bucket@, string.value.bytes@, bucket@.len() as int);
                    lemma_position_of(bucket@, string.value.bytes@, bucket@.len() as int);
                    lemma_total_len_monotonic(bucket@, position, bucket@.len() as int);
                    lemma_start_of_monotonic(self.buckets@, bucket_index + 1, MERGE_STRING_BUCKETS as int);
                }
                Some(self.bucket_offsets[bucket_index] + offset)
            },
            None => None,
        }
    }

    /// The size of the output section.
    pub fn len(&self) -> (r: u64)
        requires
            self.laid_out(),
        ensures
            r == self.size(),
    {
        self.bucket_offsets[MERGE_STRING_BUCKETS - 1] + self.buckets[MERGE_STRING_BUCKETS
            - 1].next_offset
    }

    /// Gives each bucket the offset at which it starts.
    pub fn set_bucket_offsets(&mut self)
        requires
            old(self).wf(),
            old(self).size() <= u64::MAX,
        ensures
            final(self).laid_out(),
            final(self).buckets == old(self).buckets,
    {
        let mut i: usize = 1;
        self.bucket_offsets[0] = 0;
        while i < MERGE_STRING_BUCKETS
            invariant
                1 <= i <= MERGE_STRING_BUCKETS,
                self.buckets == old(self).buckets,
                self.wf(),
                self.size() <= u64::MAX,
                forall|b: int| 0 <= b < i ==> #[trigger] self.bucket_offsets@[b] == self.bucket_start(b),
            decreases MERGE_STRING_BUCKETS - i,
        {
            proof {
                lemma_start_of_monotonic(self.buckets@, i as int, MERGE_STRING_BUCKETS as int);
            }
            self.bucket_offsets[i] = self.bucket_offsets[i - 1] + self.buckets[i - 1].len();
            i = i + 1;
        }
    }

    /// The total size of all strings that were added, duplicates too.
    pub open spec fn total_added(&self) -> nat {
        sum_over(self.buckets@, |b: MergeStringsSectionBucket| b.totally_added as nat, self.buckets@.len() as int)
    }

    /// How many strings were added, duplicates too.
    pub open spec fn total_added_strings(&self) -> nat {
        sum_over(
            self.buckets@,
            |b: MergeStringsSectionBucket| b.totally_added_strings as nat,
            self.buckets@.len() as int,
        )
    }

    /// How many different strings the section holds.
    pub open spec fn total_strings(&self) -> nat {
        sum_over(self.buckets@, |b: MergeStringsSectionBucket| b.strings@.len(), self.buckets@.len() as int)
    }

    /// The total size of all strings that were added, duplicates too.
    pub fn totally_added(&self) -> (r: usize)
        requires
            self.total_added() <= usize::MAX,
        ensures
            r == self.total_added(),
    {
        let ghost part = |b: MergeStringsSectionBucket| b.totally_added as nat;
        let mut sum: usize = 0;
        let mut i: usize = 0;
        while i < self.buckets.len()
            invariant
                i <= self.buckets@.len(),
                part == |b: MergeStringsSectionBucket| b.totally_added as nat,
                sum_over(self.buckets@, part, self.buckets@.len() as int) <= usize::MAX,
                sum == sum_over(self.buckets@, part, i as int),
            decreases self.buckets@.len() - i,
        {
            proof {
                lemma_sum_over_monotonic(self.buckets@, part, i + 1, self.buckets@.len() as int);
            }
            sum = sum + self.buckets[i].totally_added;
            i = i + 1;
        }
        sum
    }

    /// How many strings were added, duplicates too.
    pub fn totally_added_strings(&self) -> (r: usize)
        requires
            self.total_added_strings() <= usize::MAX,
        ensures
            r == self.total_added_strings(),
    {
        let ghost part = |b: MergeStringsSectionBucket| b.totally_added_strings as nat;
        let mut sum: usize = 0;
        let mut i: usize = 0;
        while i < self.buckets.len()
            invariant
                i <= self.buckets@.len(),
                part == |b: MergeStringsSectionBucket| b.totally_added_strings as nat,
                sum_over(self.buckets@, part, self.buckets@.len() as int) <= usize::MAX,
                sum == sum_over(self.buckets@, part, i as int),
            decreases self.buckets@.len() - i,
        {
            proof {
                lemma_sum_over_monotonic(self.buckets@, part, i + 1, self.buckets@.len() as int);
            }
            sum = sum + self.buckets[i].totally_added_strings;
            i = i + 1;
        }
        sum
    }

    /// How many different strings the section holds.
    pub fn string_count(&self) -> (r: usize)
        requires
            self.total_strings() <= usize::MAX,
        ensures
            r == self.total_strings(),
    {
        let ghost part = |b: MergeStringsSectionBucket| b.strings@.len();
        let mut sum: usize = 0;
        let mut i: usize = 0;
        while i < self.buckets.len()
            invariant
                i <= self.buckets@.len(),
                part == |b: MergeStringsSectionBucket| b.strings@.len(),
                sum_over(self.buckets@, part, self.buckets@.len() as int) <= usize::MAX,
                sum == sum_over(self.buckets@, part, i as int),
            decreases self.buckets@.len() - i,
        {
            proof {
                lemma_sum_over_monotonic(self.buckets@, part, i + 1, self.buckets@.len() as int);
            }
            sum = sum + self.buckets[i].strings.len();
            i = i + 1;
        }
        sum
    }
}

/// `memchr::memchr`: the index of the first byte of `haystack` that equals
/// `needle`, which is less than the length of `haystack`; `None` if no byte
/// equals it.
#[verifier::external_body]
fn find_byte(needle: u8, haystack: &[u8]) -> (r: Option<usize>)
    ensures
        match r {
            Some(i) => i < haystack@.len() && haystack@[i as int] == needle && forall|k: int|
                0 <= k < i ==> haystack@[k] != needle,
            None => forall|k: int| 0 <= k < haystack@.len() ==> haystack@[k] != needle,
        },
{
    memchr::memchr(needle, haystack)
}

/// The index of the first zero byte of `data`, or the length of `data` if
/// it holds none.
pub open spec fn first_zero(data: Seq<u8>) -> int
    decreases data.len(),
{
    if data.len() == 0 {
        0
    } else if data[0] == 0 {
        0
    } else {
        1 + first_zero(data.drop_first())
    }
}

/// What `first_zero` returns is a zero byte with none before it, or the
/// length of data without a zero byte.
pub proof fn lemma_first_zero(data: Seq<u8>)
    ensures
        0 <= first_zero(data) <= data.len(),
        first_zero(data) < data.len() ==> data[first_zero(data)] == 0,
        forall|k: int| 0 <= k < first_zero(data) ==> data[k] != 0,
    decreases data.len(),
{
    if data.len() > 0 && data[0] != 0 {
        lemma_first_zero(data.drop_first());
        assert forall|k: int| 0 <= k < first_zero(data) implies data[k] != 0 by {
            if k > 0 {
                assert(data[k] == data.drop_first()[k - 1]);
            }
        }
    }
}

/// The strings that `data` is made of: each ends with the first zero byte
/// after its start. Data that does not end in a zero byte has its rest as
/// the last string.
pub open spec fn split_strings(data: Seq<u8>) -> Seq<Seq<u8>>
    decreases data.len(),
{
    if data.len() == 0 {
        Seq::empty()
    } else {
        let n = first_zero(data);
        if n < 0 || n >= data.len() {
            seq![data]
        } else {
            seq![data.subrange(0, n + 1)] + split_strings(data.subrange(n + 1, data.len() as int))
        }
    }
}

/// Whether `data` is made of null-terminated strings: it is empty or ends
/// in a zero byte.
pub open spec fn is_terminated(data: Seq<u8>) -> bool {
    data.len() == 0 || data.last() == 0
}

/// Those of the first `limit` of `strings` that belong to the bucket `b`, in
/// their order.
pub open spec fn in_bucket(strings: Seq<Seq<u8>>, b: int, limit: int) -> Seq<Seq<u8>>
    decreases limit,
{
    if limit <= 0 {
        Seq::empty()
    } else if bucket_of(hash_of(strings[limit - 1])) == b {
        in_bucket(strings, b, limit - 1).push(strings[limit - 1])
    } else {
        in_bucket(strings, b, limit - 1)
    }
}

/// Which of the first `limit` strings belong to a bucket does not depend on
/// what follows them.
pub proof fn lemma_in_bucket_prefix(a: Seq<Seq<u8>>, b: Seq<Seq<u8>>, bucket: int, limit: int)
    requires
        0 <= limit <= a.len() <= b.len(),
        forall|k: int| 0 <= k < limit ==> a[k] == b[k],
    ensures
        in_bucket(a, bucket, limit) == in_bucket(b, bucket, limit),
    decreases limit,
{
    if limit > 0 {
        lemma_in_bucket_prefix(a, b, bucket, limit - 1);
    }
}

/// The byte strings of the given strings.
pub open spec fn contents(strings: Seq<PreHashed<StringToMerge>>) -> Seq<Seq<u8>> {
    strings.map_values(|s: PreHashed<StringToMerge>| s.value.bytes@)
}

/// Whether each of the given strings carries the hash of its bytes.
pub open spec fn hashed(strings: Seq<PreHashed<StringToMerge>>) -> bool {
    forall|i: int| 0 <= i < strings.len() ==> (#[trigger] strings[i]).hash == hash_of(strings[i].value.bytes@)
}

impl<'data> StringToMerge<'data> {
    /// Takes from `source` the bytes up to and including the first zero byte
    /// and returns them with their hash. Fails, and leaves `source` as it is,
    /// if `source` holds no zero byte.
    pub fn take_hashed(source: &mut &'data [u8]) -> (r: Result<PreHashed<StringToMerge<'data>>, Error>)
        ensures
            match r {
                Ok(string) => {
                    let n = first_zero(old(source)@);
                    &&& n < old(source)@.len()
                    &&& string.value.bytes@ == old(source)@.subrange(0, n + 1)
                    &&& string.hash == hash_of(string.value.bytes@)
                    &&& final(source)@ == old(source)@.subrange(n + 1, old(source)@.len() as int)
                },
                Err(e) => {
                    &&& e == Error::UnterminatedString
                    &&& first_zero(old(source)@) == old(source)@.len()
                    &&& final(source)@ == old(source)@
                },
            },
    {
        proof {
            lemma_first_zero(source@);
        }
        let available = source.len();
        let len = match find_byte(0, *source) {
            Some(i) => {
                i + 1
            },
            None => {
                return Err(Error::UnterminatedString);
            },
        };
        let (bytes, rest) = source.split_at(len);
        let hash = hash_bytes(bytes);
        *source = rest;
        Ok(PreHashed::new(StringToMerge { bytes }, hash))
    }
}

/// The strings of one section of mergeable strings of one object, before
/// they are merged with those of other sections: by bucket, in the order in
/// which they stand in the section.
#[derive(Debug)]
pub struct UnresolvedMergeStringsFileSection<'data> {
    /// Which section of its object this is.
    pub section_index: usize,
    pub buckets: Vec<Vec<PreHashed<StringToMerge<'data>>>>,
}

impl<'data> UnresolvedMergeStringsFileSection<'data> {
    /// Whether the buckets hold the strings that `data` is made of, each in
    /// the bucket of its hash and in the order of the data.
    pub open spec fn holds(&self, data: Seq<u8>) -> bool {
        &&& self.buckets@.len() == MERGE_STRING_BUCKETS
        &&& forall|b: int|
            0 <= b < MERGE_STRING_BUCKETS ==> {
                &&& contents((#[trigger] self.buckets@[b])@) == in_bucket(
                    split_strings(data),
                    b,
                    split_strings(data).len() as int,
                )
                &&& hashed(self.buckets@[b]@)
            }
    }

    /// Splits the data of a section into its null-terminated strings and
    /// puts each into the bucket of its hash. Fails if the data does not end
    /// in a zero byte.
    pub fn new(section_data: &'data [u8], section_index: usize) -> (r: Result<
        UnresolvedMergeStringsFileSection<'data>,
        Error,
    >)
        ensures
            match r {
                Ok(section) => {
                    &&& is_terminated(section_data@)
                    &&& section.section_index == section_index
                    &&& section.holds(section_data@)
                },
                Err(e) => e == Error::UnterminatedString && !is_terminated(section_data@),
            },
    {
        let mut remaining = section_data;
        let mut buckets: Vec<Vec<PreHashed<StringToMerge<'data>>>> = Vec::new();
        while buckets.len() < MERGE_STRING_BUCKETS
            invariant
                buckets@.len() <= MERGE_STRING_BUCKETS,
                forall|b: int| 0 <= b < buckets@.len() ==> (#[trigger] buckets@[b])@.len() == 0,
            decreases MERGE_STRING_BUCKETS - buckets@.len(),
        {
            buckets.push(Vec::new());
        }
        let ghost done: Seq<Seq<u8>> = Seq::empty();
        let ghost all = section_data@;
        while remaining.len() > 0
            invariant
                buckets@.len() == MERGE_STRING_BUCKETS,
                all == section_data@,
                done + split_strings(remaining@) == split_strings(all),
                is_terminated(remaining@) == is_terminated(all),
                forall|b: int|
                    0 <= b < MERGE_STRING_BUCKETS ==> {
                        &&& contents((#[trigger] buckets@[b])@) == in_bucket(done, b, done.len() as int)
                        &&& hashed(buckets@[b]@)
                    },
            decreases remaining@.len(),
        {
            let ghost before = remaining@;
            proof {
                lemma_first_zero(before);
            }
            let string = match StringToMerge::take_hashed(&mut remaining) {
                Ok(string) => string,
                Err(e) => {
                    return Err(e);
                },
            };
            let index = bucket_index(string.hash());
            buckets[index].push(string);
            proof {
                let bytes = string.value.bytes@;
                let grown = done.push(bytes);
                assert forall|b: int| 0 <= b < MERGE_STRING_BUCKETS implies contents(
                    (#[trigger] buckets@[b])@,
                ) == in_bucket(grown, b, grown.len() as int) && hashed(buckets@[b]@) by {
                    lemma_in_bucket_prefix(done, grown, b, done.len() as int);
                }
                done = grown;
            }
        }
        Ok(UnresolvedMergeStringsFileSection { section_index, buckets })
    }
}

/// `base` after the first `limit` of `more` have been added, each unless an
/// equal string is there already.
pub open spec fn with_strings(base: Seq<Seq<u8>>, more: Seq<Seq<u8>>, limit: int) -> Seq<Seq<u8>>
    decreases limit,
{
    if limit <= 0 {
        base
    } else {
        with_string(with_strings(base, more, limit - 1), more[limit - 1])
    }
}

/// Adding strings keeps the strings that were there, in their places.
pub proof fn lemma_with_strings_extends(base: Seq<Seq<u8>>, more: Seq<Seq<u8>>, limit: int)
    requires
        0 <= limit <= more.len(),
    ensures
        base.len() <= with_strings(base, more, limit).len(),
        forall|i: int| 0 <= i < base.len() ==> #[trigger] with_strings(base, more, limit)[i] == base[i],
    decreases limit,
{
    if limit > 0 {
        lemma_with_strings_extends(base, more, limit - 1);
    }
}

impl<'data> MergeStringsSectionBucket<'data> {
    /// Whether the bucket is well-formed and no larger than what was added to it.
    pub open spec fn counted(&self) -> bool {
        self.wf() && self.next_offset <= self.totally_added
    }

    /// Adds the strings `fragments` in their order, each unless the bucket
    /// holds an equal string already.
    pub fn add_strings(&mut self, fragments: &Vec<PreHashed<StringToMerge<'data>>>)
        requires
            old(self).counted(),
            old(self).totally_added + total_len(contents(fragments@), fragments@.len() as int) <= usize::MAX,
            old(self).totally_added_strings + fragments@.len() <= usize::MAX,
        ensures
            final(self).counted(),
            final(self)@ == with_strings(old(self)@, contents(fragments@), fragments@.len() as int),
            final(self).totally_added == old(self).totally_added + total_len(
                contents(fragments@),
                fragments@.len() as int,
            ),
            final(self).totally_added_strings == old(self).totally_added_strings + fragments@.len(),
    {
        let ghost more = contents(fragments@);
        let mut i: usize = 0;
        while i < fragments.len()
            invariant
                i <= fragments@.len(),
                more == contents(fragments@),
                self.counted(),
                old(self).totally_added + total_len(more, fragments@.len() as int) <= usize::MAX,
                old(self).totally_added_strings + fragments@.len() <= usize::MAX,
                self@ == with_strings(old(self)@, more, i as int),
                self.totally_added == old(self).totally_added + total_len(more, i as int),
                self.totally_added_strings == old(self).totally_added_strings + i,
            decreases fragments@.len() - i,
        {
            proof {
                lemma_total_len_monotonic(more, i + 1, fragments@.len() as int);
            }
            self.add_string(fragments[i]);
            i = i + 1;
        }
    }
}

impl<'data> UnresolvedMergeStringsFileSection<'data> {
    /// The strings of the bucket `b`, in the order in which they stand in the section.
    pub open spec fn bucket(&self, b: int) -> Seq<Seq<u8>> {
        contents(self.buckets@[b]@)
    }

    /// The total length of the strings of the bucket `b`.
    pub open spec fn bucket_bytes(&self, b: int) -> int {
        total_len(self.bucket(b), self.bucket(b).len() as int)
    }
}

impl<'data> MergeStringsSection<'data> {
    /// Whether each bucket is well-formed and no larger than what was added to it.
    pub open spec fn counted(&self) -> bool {
        &&& self.buckets@.len() == MERGE_STRING_BUCKETS
        &&& self.bucket_offsets@.len() == MERGE_STRING_BUCKETS
        &&& forall|b: int| 0 <= b < MERGE_STRING_BUCKETS ==> (#[trigger] self.buckets@[b]).counted()
    }

    /// Adds the strings of `fragments`, bucket by bucket, each string unless
    /// its bucket holds an equal string already.
    pub fn add_fragments(&mut self, fragments: &UnresolvedMergeStringsFileSection<'data>)
        requires
            old(self).counted(),
            fragments.buckets@.len() == MERGE_STRING_BUCKETS,
            forall|b: int|
                0 <= b < MERGE_STRING_BUCKETS ==> {
                    &&& (#[trigger] old(self).buckets@[b]).totally_added + fragments.bucket_bytes(b)
                        <= usize::MAX
                    &&& old(self).buckets@[b].totally_added_strings + fragments.bucket(b).len()
                        <= usize::MAX
                },
        ensures
            final(self).counted(),
            final(self).bucket_offsets == old(self).bucket_offsets,
            forall|b: int|
                0 <= b < MERGE_STRING_BUCKETS ==> {
                    let bucket = #[trigger] final(self).buckets@[b];
                    &&& bucket@ == with_strings(
                        old(self).buckets@[b]@,
                        fragments.bucket(b),
                        fragments.bucket(b).len() as int,
                    )
                    &&& bucket.totally_added == old(self).buckets@[b].totally_added
                        + fragments.bucket_bytes(b)
                    &&& bucket.totally_added_strings == old(self).buckets@[b].totally_added_strings
                        + fragments.bucket(b).len()
                },
    {
        let mut i: usize = 0;
        while i < MERGE_STRING_BUCKETS
            invariant
                i <= MERGE_STRING_BUCKETS,
                self.buckets@.len() == MERGE_STRING_BUCKETS,
                self.bucket_offsets == old(self).bucket_offsets,
                old(self).counted(),
                fragments.buckets@.len() == MERGE_STRING_BUCKETS,
                forall|b: int|
                    0 <= b < MERGE_STRING_BUCKETS ==> {
                        &&& (#[trigger] old(self).buckets@[b]).totally_added + fragments.bucket_bytes(b)
                            <= usize::MAX
                        &&& old(self).buckets@[b].totally_added_strings + fragments.bucket(b).len()
                            <= usize::MAX
                    },
                forall|b: int| i <= b < MERGE_STRING_BUCKETS ==> #[trigger] self.buckets@[b] == old(self).buckets@[b],
                forall|b: int|
                    0 <= b < i ==> {
                        let bucket = #[trigger] self.buckets@[b];
                        &&& bucket.counted()
                        &&& bucket@ == with_strings(
                            old(self).buckets@[b]@,
                            fragments.bucket(b),
                            fragments.bucket(b).len() as int,
                        )
                        &&& bucket.totally_added == old(self).buckets@[b].totally_added
                            + fragments.bucket_bytes(b)
                        &&& bucket.totally_added_strings == old(self).buckets@[b].totally_added_strings
                            + fragments.bucket(b).len()
                    },
            decreases MERGE_STRING_BUCKETS - i,
        {
            self.buckets[i].add_strings(&fragments.buckets[i]);
            proof {
                assert forall|b: int| 0 <= b < i implies {
                    let bucket = #[trigger] self.buckets@[b];
                    &&& bucket.counted()
                    &&& bucket@ == with_strings(
                        old(self).buckets@[b]@,
                        fragments.bucket(b),
                        fragments.bucket(b).len() as int,
                    )
                    &&& bucket.totally_added == old(self).buckets@[b].totally_added
                        + fragments.bucket_bytes(b)
                    &&& bucket.totally_added_strings == old(self).buckets@[b].totally_added_strings
                        + fragments.bucket(b).len()
                } by {
                }
            }
            i = i + 1;
        }
    }
}

/// Adds the strings `fragments` to `bucket` in their order, each unless the
/// bucket holds an equal string already. The buckets of a section do not
/// depend on one another, so they may be filled in any order, or at once.
pub fn merge_bucket<'data>(
    bucket: &mut MergeStringsSectionBucket<'data>,
    fragments: &Vec<PreHashed<StringToMerge<'data>>>,
)
    requires
        old(bucket).counted(),
        old(bucket).totally_added + total_len(contents(fragments@), fragments@.len() as int) <= usize::MAX,
        old(bucket).totally_added_strings + fragments@.len() <= usize::MAX,
    ensures
        final(bucket).counted(),
        final(bucket)@ == with_strings(old(bucket)@, contents(fragments@), fragments@.len() as int),
        final(bucket).totally_added == old(bucket).totally_added + total_len(
            contents(fragments@),
            fragments@.len() as int,
        ),
        final(bucket).totally_added_strings == old(bucket).totally_added_strings + fragments@.len(),
{
    bucket.add_strings(fragments)
}

} // verus!
