//! Power-of-two alignments and a dense map keyed by them.

use vstd::arithmetic::power2::{lemma2_to64, pow2};
use vstd::prelude::*;
use vstd::std_specs::cmp::PartialEqSpec;
use vstd::std_specs::ops::AddSpec;

verus! {

/// The exponent of the largest alignment that is supported.
pub const MAX_EXPONENT: u8 = 16;

/// How many distinct alignments there are: one per exponent from 0 to `MAX_EXPONENT`.
pub const NUM_ALIGNMENTS: usize = 17;

/// An alignment in bytes. Always a power of two, at most `2^MAX_EXPONENT`.
///
/// Its view is the exponent.
#[derive(Clone, Copy, Debug, PartialEq, Eq, Structural, Hash)]
pub struct Alignment {
    exponent: u8,
}

impl View for Alignment {
    type V = nat;

    closed spec fn view(&self) -> nat {
        self.exponent as nat
    }
}

impl Alignment {
    /// Whether the exponent is a supported one. Every `Alignment` that a
    /// running program holds meets this; a contract that quantifies over
    /// alignments has to ask for it.
    #[verifier::type_invariant]
    pub open spec fn wf(self) -> bool {
        self@ <= MAX_EXPONENT
    }

    /// The alignment with the given view. Only meaningful for `e <= MAX_EXPONENT`.
    pub closed spec fn of(e: nat) -> Alignment {
        Alignment { exponent: e as u8 }
    }

    /// An alignment is the one that `of` gives for its exponent.
    pub broadcast proof fn lemma_view_of(a: Alignment)
        ensures
            #[trigger] Alignment::of(a@) == a,
    {
    }

    /// The smallest alignment: one byte.
    pub fn min_alignment() -> (r: Alignment)
        ensures
            r@ == 0,
    {
        Alignment { exponent: 0 }
    }

    /// The largest alignment that is supported.
    pub fn max_alignment() -> (r: Alignment)
        ensures
            r@ == MAX_EXPONENT,
    {
        Alignment { exponent: MAX_EXPONENT }
    }

    /// The alignment `2^exponent`, if that is supported.
    pub fn from_exponent(exponent: u8) -> (r: Option<Alignment>)
        ensures
            exponent <= MAX_EXPONENT ==> r.is_some() && r.unwrap()@ == exponent,
            exponent > MAX_EXPONENT ==> r.is_none(),
    {
        if exponent <= MAX_EXPONENT {
            Some(Alignment { exponent })
        } else {
            None
        }
    }

    /// The alignment of `raw` bytes. `None` unless `raw` is a power of two that
    /// is no larger than `2^MAX_EXPONENT`.
    pub fn new(raw: u64) -> (r: Option<Alignment>)
        ensures
            match r {
                Some(a) => raw == pow2(a@) && a.wf(),
                None => forall|e: nat| e <= MAX_EXPONENT ==> raw != pow2(e),
            },
    {
        let mut exponent: u8 = 0;
        let mut value: u64 = 1;
        proof {
            lemma2_to64();
        }
        while exponent <= MAX_EXPONENT
            invariant
                exponent <= MAX_EXPONENT + 1,
                value == pow2(exponent as nat),
                value <= 0x2_0000,
                forall|e: nat| e < exponent ==> raw != pow2(e),
            decreases MAX_EXPONENT + 1 - exponent,
        {
            if raw == value {
                return Some(Alignment { exponent });
            }
            proof {
                lemma2_to64();
            }
            exponent = exponent + 1;
            value = value * 2;
        }
        None
    }

    /// The exponent: the base-two logarithm of the alignment.
    pub fn exponent(self) -> (r: u8)
        ensures
            r == self@,
            r <= MAX_EXPONENT,
    {
        proof {
            use_type_invariant(&self);
        }
        self.exponent
    }

    /// The alignment in bytes.
    pub fn value(self) -> (r: u64)
        ensures
            r == pow2(self@),
    {
        proof {
            use_type_invariant(&self);
        }
        let mut i: u8 = 0;
        let mut value: u64 = 1;
        proof {
            lemma2_to64();
        }
        while i < self.exponent
            invariant
                i <= self.exponent <= MAX_EXPONENT,
                value == pow2(i as nat),
                value <= 0x1_0000,
            decreases self.exponent - i,
        {
            proof {
                lemma2_to64();
            }
            i = i + 1;
            value = value * 2;
        }
        value
    }

    /// The smaller of two alignments.
    pub fn min(self, other: Alignment) -> (r: Alignment)
        ensures
            r@ == if self@ <= other@ { self@ } else { other@ },
            r == self || r == other,
    {
        if self.exponent <= other.exponent {
            self
        } else {
            other
        }
    }

    /// The larger of two alignments.
    pub fn max(self, other: Alignment) -> (r: Alignment)
        ensures
            r@ == if self@ >= other@ { self@ } else { other@ },
            r == self || r == other,
    {
        if self.exponent >= other.exponent {
            self
        } else {
            other
        }
    }
}

/// Whether `e` is the exponent of a supported alignment.
pub open spec fn is_exponent(e: int) -> bool {
    0 <= e <= MAX_EXPONENT
}

/// Whether `v` is a value that `T::default()` may return.
pub open spec fn is_default<T: Default>(v: T) -> bool {
    call_ensures(T::default, (), v)
}

/// Whether `T::default()` always returns the same value and `==` on `T` is
/// the equality that `eq_spec` describes.
pub open spec fn default_is_fixed<T: Default + PartialEq>() -> bool {
    &&& T::obeys_eq_spec()
    &&& forall|a: T, b: T| is_default(a) && is_default(b) ==> a == b
}

/// Whether `v` differs from the default value of its type.
pub open spec fn is_populated<T: Default + PartialEq>(v: T) -> bool {
    exists|d: T| is_default(d) && !v.eq_spec(&d)
}

/// The largest exponent below `limit` whose bucket in `values` is populated,
/// or -1 if there is none.
pub open spec fn highest_populated_below<T: Default + PartialEq>(values: Seq<T>, limit: int) -> int
    decreases limit,
{
    if limit <= 0 {
        -1
    } else if is_populated(values[limit - 1]) {
        limit - 1
    } else {
        highest_populated_below(values, limit - 1)
    }
}

/// The largest exponent whose bucket is populated, or -1 if none is.
pub open spec fn highest_populated<T: Default + PartialEq>(values: Seq<T>) -> int {
    highest_populated_below(values, values.len() as int)
}

/// What `highest_populated_below` returns is a populated bucket below the
/// limit with none populated above it, or -1 where no bucket below the limit
/// is populated.
pub proof fn lemma_highest_populated_below<T: Default + PartialEq>(values: Seq<T>, limit: int)
    requires
        0 <= limit <= values.len(),
    ensures
        -1 <= highest_populated_below(values, limit) < limit,
        highest_populated_below(values, limit) >= 0 ==> is_populated(
            values[highest_populated_below(values, limit)],
        ),
        forall|i: int|
            highest_populated_below(values, limit) < i < limit ==> !is_populated(#[trigger] values[i]),
    decreases limit,
{
    if limit > 0 && !is_populated(values[limit - 1]) {
        lemma_highest_populated_below(values, limit - 1);
    }
}

/// A map from each supported alignment to a value: one bucket per exponent.
///
/// Its view is the sequence of buckets, by ascending exponent.
#[derive(Clone, Debug, PartialEq, Eq)]
pub struct AlignmentMap<T> {
    pub values: [T; NUM_ALIGNMENTS],
}

impl<T> View for AlignmentMap<T> {
    type V = Seq<T>;

    open spec fn view(&self) -> Seq<T> {
        self.values@
    }
}

impl<T> AlignmentMap<T> {
    /// Every map has exactly `NUM_ALIGNMENTS` buckets.
    pub broadcast proof fn lemma_len(self)
        ensures
            #[trigger] self@.len() == NUM_ALIGNMENTS,
    {
        vstd::array::array_len_matches_n(&self.values);
    }

    /// The value of the bucket for `alignment`.
    pub fn get(&self, alignment: Alignment) -> (r: &T)
        ensures
            *r == self@[alignment@ as int],
    {
        proof {
            use_type_invariant(&alignment);
        }
        &self.values[alignment.exponent as usize]
    }

    /// The bucket for `alignment`, for writing. Only that bucket can change.
    pub fn get_mut(&mut self, alignment: Alignment) -> (r: &mut T)
        ensures
            *r == old(self)@[alignment@ as int],
            final(self)@ == old(self)@.update(alignment@ as int, *final(r)),
    {
        proof {
            use_type_invariant(&alignment);
        }
        &mut self.values[alignment.exponent as usize]
    }

    /// All buckets, by ascending alignment.
    pub fn raw_values(&self) -> (r: &[T])
        ensures
            r@ == self@,
    {
        self.values.as_slice()
    }

    /// Each alignment with its bucket, by ascending alignment.
    pub fn iter(&self) -> (r: Vec<(Alignment, &T)>)
        ensures
            r@.len() == NUM_ALIGNMENTS,
            forall|i: int| 0 <= i < NUM_ALIGNMENTS ==> (#[trigger] r@[i]).0@ == i && *r@[i].1 == self@[i],
    {
        let mut out: Vec<(Alignment, &T)> = Vec::new();
        let mut exponent: u8 = 0;
        while exponent <= MAX_EXPONENT
            invariant
                exponent <= MAX_EXPONENT + 1,
                out@.len() == exponent,
                forall|i: int| 0 <= i < exponent ==> (#[trigger] out@[i]).0@ == i && *out@[i].1 == self@[i],
            decreases MAX_EXPONENT + 1 - exponent,
        {
            out.push((Alignment { exponent }, &self.values[exponent as usize]));
            exponent = exponent + 1;
        }
        out
    }

    /// Each alignment with its bucket, by descending alignment.
    pub fn iter_rev(&self) -> (r: Vec<(Alignment, &T)>)
        ensures
            r@.len() == NUM_ALIGNMENTS,
            forall|i: int|
                0 <= i < NUM_ALIGNMENTS ==> (#[trigger] r@[i]).0@ == MAX_EXPONENT - i && *r@[i].1
                    == self@[MAX_EXPONENT - i],
    {
        let mut out: Vec<(Alignment, &T)> = Vec::new();
        let mut done: u8 = 0;
        while done <= MAX_EXPONENT
            invariant
                done <= MAX_EXPONENT + 1,
                out@.len() == done,
                forall|i: int|
                    0 <= i < done ==> (#[trigger] out@[i]).0@ == MAX_EXPONENT - i && *out@[i].1
                        == self@[MAX_EXPONENT - i],
            decreases MAX_EXPONENT + 1 - done,
        {
            let exponent: u8 = MAX_EXPONENT - done;
            out.push((Alignment { exponent }, &self.values[exponent as usize]));
            done = done + 1;
        }
        out
    }

    /// Calls `cb` once for each alignment, lowest first, with the bucket of
    /// `self` for writing and the bucket of `other` for reading, and collects
    /// what it returns under the same alignment.
    ///
    /// The result is stated bucket by bucket; `is_exponent(e)` selects the
    /// bucket with exponent `e`.
    pub fn mut_zip<U, V: Default, F: FnMut(&mut T, &U) -> V>(
        &mut self,
        other: &AlignmentMap<U>,
        cb: &mut F,
    ) -> (out: AlignmentMap<V>)
        requires
            forall|t: &mut T, u: &U|
                (exists|e: int|
                    is_exponent(e) && mut_ref_current(t) == #[trigger] old(self)@[e] && *u == other@[e])
                    ==> #[trigger] call_requires(*old(cb), (t, u)),
        ensures
            forall|e: int| #[trigger]
                is_exponent(e) ==> exists|t: &mut T|
                    #![trigger call_ensures(*old(cb), (t, &other@[e]), out@[e])]
                    mut_ref_current(t) == old(self)@[e] && mut_ref_future(t) == final(self)@[e]
                        && call_ensures(*old(cb), (t, &other@[e]), out@[e]),
            *final(cb) == *old(cb),
    {
        let mut out = AlignmentMap::<V>::default();
        let mut i: usize = 0;
        while i < NUM_ALIGNMENTS
            invariant
                i <= NUM_ALIGNMENTS,
                forall|t: &mut T, u: &U|
                    (exists|e: int|
                        is_exponent(e) && mut_ref_current(t) == #[trigger] old(self)@[e] && *u
                            == other@[e]) ==> #[trigger] call_requires(*cb, (t, u)),
                forall|e: int| i <= e < NUM_ALIGNMENTS ==> self@[e] == old(self)@[e],
                forall|e: int| #[trigger]
                    is_exponent(e) && e < i ==> exists|t: &mut T|
                        #![trigger call_ensures(*cb, (t, &other@[e]), out@[e])]
                        mut_ref_current(t) == old(self)@[e] && mut_ref_future(t) == self@[e]
                            && call_ensures(*cb, (t, &other@[e]), out@[e]),
                *cb == *old(cb),
            decreases NUM_ALIGNMENTS - i,
        {
            let ghost out_before = out;
            assert(is_exponent(i as int) && self@[i as int] == old(self)@[i as int]);
            let v = cb(&mut self.values[i], &other.values[i]);
            out.values[i] = v;
            i = i + 1;
            proof {
                assert forall|e: int| #[trigger] is_exponent(e) && e < i implies exists|t: &mut T|
                    #![trigger call_ensures(*cb, (t, &other@[e]), out@[e])]
                    mut_ref_current(t) == old(self)@[e] && mut_ref_future(t) == self@[e]
                        && call_ensures(*cb, (t, &other@[e]), out@[e]) by {
                    if e < i - 1 {
                        assert(out@[e] == out_before@[e]);
                    } else {
                        assert(other@[e] == other.values[e]);
                        assert(out@[e] == v);
                    }
                }
            }
        }
        out
    }
}

impl<T: Default> AlignmentMap<T> {
    /// A map from a list of buckets. A bucket that the list does not name holds
    /// the default value; where it names one twice, the later entry stays.
    pub fn from_entries(entries: Vec<(Alignment, T)>) -> (r: Self)
        ensures
            forall|e: int|
                #![trigger r@[e]]
                0 <= e < NUM_ALIGNMENTS ==> match last_entry_for(entries@, e, entries@.len() as int) {
                    Some(value) => r@[e] == value,
                    None => is_default(r@[e]),
                },
    {
        let mut out = AlignmentMap::<T>::default();
        let ghost all = entries@;
        for entry in iter: entries
            invariant
                iter.seq() == all,
                forall|e: int|
                    #![trigger out@[e]]
                    0 <= e < NUM_ALIGNMENTS ==> match last_entry_for(all, e, iter.index() as int) {
                        Some(value) => out@[e] == value,
                        None => is_default(out@[e]),
                    },
        {
            let ghost out_before = out;
            let (alignment, value) = entry;
            proof {
                use_type_invariant(&alignment);
            }
            out.values[alignment.exponent as usize] = value;
            proof {
                assert forall|e: int| #![trigger out@[e]] 0 <= e < NUM_ALIGNMENTS implies match last_entry_for(
                    all,
                    e,
                    iter.index() + 1,
                ) {
                    Some(value) => out@[e] == value,
                    None => is_default(out@[e]),
                } by {
                    if e != alignment@ {
                        assert(out@[e] == out_before@[e]);
                    }
                }
            }
        }
        out
    }
}

/// The value of the last of the first `limit` entries that names the
/// alignment with exponent `e`, if any of them does.
pub open spec fn last_entry_for<T>(entries: Seq<(Alignment, T)>, e: int, limit: int) -> Option<T>
    decreases limit,
{
    if limit <= 0 {
        None
    } else if entries[limit - 1].0@ == e {
        Some(entries[limit - 1].1)
    } else {
        last_entry_for(entries, e, limit - 1)
    }
}

impl<T: core::ops::Add<Output = T> + Copy> AlignmentMap<T> {
    /// Adds to each bucket the bucket of `rhs` for the same alignment.
    pub fn merge(&mut self, rhs: &AlignmentMap<T>)
        requires
            T::obeys_add_spec(),
            forall|e: int| #[trigger] is_exponent(e) ==> old(self)@[e].add_req(rhs@[e]),
        ensures
            forall|e: int| #[trigger] is_exponent(e) ==> final(self)@[e] == old(self)@[e].add_spec(rhs@[e]),
    {
        let mut i: usize = 0;
        while i < NUM_ALIGNMENTS
            invariant
                i <= NUM_ALIGNMENTS,
                T::obeys_add_spec(),
                forall|e: int| #[trigger] is_exponent(e) ==> old(self)@[e].add_req(rhs@[e]),
                forall|e: int| #[trigger] is_exponent(e) && e < i ==> self@[e] == old(self)@[e].add_spec(rhs@[e]),
                forall|e: int| #[trigger] is_exponent(e) && e >= i ==> self@[e] == old(self)@[e],
            decreases NUM_ALIGNMENTS - i,
        {
            assert(is_exponent(i as int));
            let sum = self.values[i] + rhs.values[i];
            self.values[i] = sum;
            i = i + 1;
        }
    }
}

impl<T: Default> Default for AlignmentMap<T> {
    /// The map in which every bucket holds the default value.
    fn default() -> (r: Self)
        ensures
            forall|i: int| 0 <= i < NUM_ALIGNMENTS ==> is_default(#[trigger] r@[i]),
    {
        AlignmentMap {
            values: [
                T::default(),
                T::default(),
                T::default(),
                T::default(),
                T::default(),
                T::default(),
                T::default(),
                T::default(),
                T::default(),
                T::default(),
                T::default(),
                T::default(),
                T::default(),
                T::default(),
                T::default(),
                T::default(),
                T::default(),
            ],
        }
    }
}

impl Default for Alignment {
    fn default() -> (r: Alignment)
        ensures
            r@ == 0,
    {
        Alignment { exponent: 0 }
    }
}

} // verus!
