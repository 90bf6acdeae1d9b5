use linker_resolution::error::Error;
use linker_resolution::hash::{hash_bytes, PreHashed};
use linker_resolution::merge_strings::{
    bucket_index, merge_bucket, MergeStringsSection, MergeStringsSectionBucket, StringToMerge,
    UnresolvedMergeStringsFileSection, MERGE_STRING_BUCKETS,
};

fn string(bytes: &[u8]) -> PreHashed<StringToMerge<'_>> {
    PreHashed::new(StringToMerge { bytes }, hash_bytes(bytes))
}

#[test]
fn hash_of_known_strings() {
    assert_eq!(hash_bytes(b""), 0xcbf2_9ce4_8422_2325);
    assert_eq!(hash_bytes(b"a"), 0xaf63_dc4c_8601_ec8c);
    assert_eq!(hash_bytes(b"foobar"), 0x8594_4171_f739_67e8);
}

#[test]
fn take_hashed_takes_up_to_the_terminator() {
    let data: &[u8] = b"abc\0de\0";
    let mut rest = data;
    let first = StringToMerge::take_hashed(&mut rest).unwrap();
    assert_eq!(first.value.bytes, b"abc\0");
    assert_eq!(first.hash, hash_bytes(b"abc\0"));
    assert_eq!(rest, b"de\0");
    let second = StringToMerge::take_hashed(&mut rest).unwrap();
    assert_eq!(second.value.bytes, b"de\0");
    assert!(rest.is_empty());
}

#[test]
fn take_hashed_of_a_leading_terminator() {
    let data: &[u8] = b"\0x\0";
    let mut rest = data;
    let first = StringToMerge::take_hashed(&mut rest).unwrap();
    assert_eq!(first.value.bytes, b"\0");
    assert_eq!(rest, b"x\0");
}

#[test]
fn take_hashed_fails_without_terminator() {
    let data: &[u8] = b"abc";
    let mut rest = data;
    assert_eq!(StringToMerge::take_hashed(&mut rest).unwrap_err(), Error::UnterminatedString);
    assert_eq!(rest, b"abc");
}

#[test]
fn section_is_split_into_buckets_by_hash() {
    let data: &[u8] = b"one\0two\0three\0one\0";
    let section = UnresolvedMergeStringsFileSection::new(data, 5).unwrap();
    assert_eq!(section.section_index, 5);
    assert_eq!(section.buckets.len(), MERGE_STRING_BUCKETS);
    let total: usize = section.buckets.iter().map(|b| b.len()).sum();
    assert_eq!(total, 4);
    for (index, bucket) in section.buckets.iter().enumerate() {
        for entry in bucket {
            assert_eq!(bucket_index(entry.hash), index);
            assert_eq!(entry.hash, hash_bytes(entry.value.bytes));
            assert_eq!(*entry.value.bytes.last().unwrap(), 0);
        }
    }
    let bucket = &section.buckets[bucket_index(hash_bytes(b"one\0"))];
    let ones: Vec<_> = bucket.iter().filter(|e| e.value.bytes == b"one\0").collect();
    assert_eq!(ones.len(), 2);
}

#[test]
fn empty_section_has_no_strings() {
    let section = UnresolvedMergeStringsFileSection::new(b"", 0).unwrap();
    assert!(section.buckets.iter().all(|b| b.is_empty()));
}

#[test]
fn unterminated_section_is_refused() {
    let r = UnresolvedMergeStringsFileSection::new(b"one\0two", 0);
    assert_eq!(r.unwrap_err(), Error::UnterminatedString);
}

#[test]
fn bucket_gives_each_string_one_offset() {
    let mut bucket = MergeStringsSectionBucket::default();
    assert_eq!(bucket.add_string(string(b"ab\0")), 0);
    assert_eq!(bucket.add_string(string(b"cde\0")), 3);
    assert_eq!(bucket.add_string(string(b"ab\0")), 0);
    assert_eq!(bucket.add_string(string(b"\0")), 7);
    assert_eq!(bucket.len(), 8);
    assert_eq!(bucket.strings.len(), 3);
    assert_eq!(bucket.totally_added, 11);
    assert_eq!(bucket.totally_added_strings, 4);
    assert_eq!(bucket.get(&string(b"cde\0")), Some(3));
    assert_eq!(bucket.get(&string(b"zz\0")), None);
}

#[test]
fn merge_bucket_adds_in_order() {
    let mut bucket = MergeStringsSectionBucket::default();
    let fragments = vec![string(b"x\0"), string(b"yy\0"), string(b"x\0")];
    merge_bucket(&mut bucket, &fragments);
    assert_eq!(bucket.strings, vec![&b"x\0"[..], &b"yy\0"[..]]);
    assert_eq!(bucket.next_offset, 5);
    assert_eq!(bucket.totally_added, 7);
}

#[test]
fn section_offsets_are_bucket_offset_plus_offset_in_bucket() {
    let mut section = MergeStringsSection::default();
    assert_eq!(section.len(), 0);
    let words: [&[u8]; 5] = [b"alpha\0", b"beta\0", b"gamma\0", b"delta\0", b"alpha\0"];
    let mut in_bucket = Vec::new();
    for word in words {
        let s = string(word);
        let index = bucket_index(s.hash);
        in_bucket.push((s, index, section.buckets[index].add_string(s)));
    }
    section.set_bucket_offsets();
    let mut expected_start = 0;
    for index in 0..MERGE_STRING_BUCKETS {
        assert_eq!(section.bucket_offsets[index], expected_start);
        expected_start += section.buckets[index].len();
    }
    assert_eq!(section.len(), expected_start);
    assert_eq!(section.len(), 6 + 5 + 6 + 6);
    for (s, index, offset) in in_bucket {
        assert_eq!(section.get(&s), Some(section.bucket_offsets[index] + offset));
    }
    assert_eq!(section.get(&string(b"omega\0")), None);
    assert_eq!(section.totally_added(), 29);
    assert_eq!(section.totally_added_strings(), 5);
    assert_eq!(section.string_count(), 4);
}

#[test]
fn offsets_do_not_depend_on_the_order_of_buckets() {
    let words: [&[u8]; 4] = [b"alpha\0", b"beta\0", b"gamma\0", b"delta\0"];
    let mut forward = MergeStringsSection::default();
    for word in words {
        let s = string(word);
        forward.buckets[bucket_index(s.hash)].add_string(s);
    }
    forward.set_bucket_offsets();
    let mut backward = MergeStringsSection::default();
    for index in (0..MERGE_STRING_BUCKETS).rev() {
        for word in words {
            let s = string(word);
            if bucket_index(s.hash) == index {
                backward.buckets[index].add_string(s);
            }
        }
    }
    backward.set_bucket_offsets();
    for word in words {
        assert_eq!(forward.get(&string(word)), backward.get(&string(word)));
    }
    assert_eq!(forward.len(), backward.len());
}
