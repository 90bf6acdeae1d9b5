use linker_resolution::alignment::{Alignment, AlignmentMap, MAX_EXPONENT, NUM_ALIGNMENTS};
use linker_resolution::output_section_id;
use linker_resolution::output_section_part_map::{highest_populated_alignment, map_alignment_map};

#[test]
fn alignment_from_bytes() {
    assert_eq!(Alignment::new(1).unwrap().exponent(), 0);
    assert_eq!(Alignment::new(8).unwrap().exponent(), 3);
    assert_eq!(Alignment::new(4096).unwrap().exponent(), 12);
    assert_eq!(Alignment::new(65536).unwrap().exponent(), 16);
    assert!(Alignment::new(0).is_none());
    assert!(Alignment::new(3).is_none());
    assert!(Alignment::new(131072).is_none());
}

#[test]
fn alignment_value_and_order() {
    let four = Alignment::from_exponent(2).unwrap();
    let sixteen = Alignment::from_exponent(4).unwrap();
    assert_eq!(four.value(), 4);
    assert_eq!(sixteen.value(), 16);
    assert_eq!(Alignment::max_alignment().value(), 65536);
    assert_eq!(Alignment::min_alignment().value(), 1);
    assert_eq!(four.min(sixteen), four);
    assert_eq!(four.max(sixteen), sixteen);
    assert_eq!(Alignment::default(), Alignment::min_alignment());
    assert!(Alignment::from_exponent(MAX_EXPONENT + 1).is_none());
    assert_eq!(NUM_ALIGNMENTS, 17);
}

#[test]
fn alignment_map_read_and_write() {
    let mut map = AlignmentMap::<u32>::default();
    let eight = Alignment::new(8).unwrap();
    *map.get_mut(eight) = 5;
    assert_eq!(*map.get(eight), 5);
    assert_eq!(*map.get(Alignment::new(4).unwrap()), 0);
    assert_eq!(map.raw_values().len(), 17);
    assert_eq!(map.raw_values()[3], 5);
}

#[test]
fn alignment_map_iterates_both_ways() {
    let mut map = AlignmentMap::<u32>::default();
    *map.get_mut(Alignment::from_exponent(0).unwrap()) = 10;
    *map.get_mut(Alignment::from_exponent(16).unwrap()) = 20;
    let up = map.iter();
    assert_eq!(up.len(), 17);
    assert_eq!(up[0].0.exponent(), 0);
    assert_eq!(*up[0].1, 10);
    assert_eq!(up[16].0.exponent(), 16);
    assert_eq!(*up[16].1, 20);
    let down = map.iter_rev();
    assert_eq!(down[0].0.exponent(), 16);
    assert_eq!(*down[0].1, 20);
    assert_eq!(down[16].0.exponent(), 0);
    assert_eq!(*down[16].1, 10);
}

#[test]
fn alignment_map_from_entries() {
    let two = Alignment::new(2).unwrap();
    let four = Alignment::new(4).unwrap();
    let map = AlignmentMap::<u32>::from_entries(vec![(two, 1), (four, 2), (two, 3)]);
    assert_eq!(*map.get(two), 3);
    assert_eq!(*map.get(four), 2);
    assert_eq!(*map.get(Alignment::new(8).unwrap()), 0);
}

#[test]
fn alignment_map_mut_zip() {
    let mut left = AlignmentMap::<u32>::from_entries(vec![(Alignment::new(2).unwrap(), 5)]);
    let right = AlignmentMap::<u32>::from_entries(vec![(Alignment::new(2).unwrap(), 7)]);
    let mut calls = 0;
    let mut cb = |a: &mut u32, b: &u32| {
        calls += 1;
        *a += *b;
        *a * 2
    };
    let out = left.mut_zip(&right, &mut cb);
    assert_eq!(calls, 17);
    assert_eq!(*left.get(Alignment::new(2).unwrap()), 12);
    assert_eq!(*out.get(Alignment::new(2).unwrap()), 24);
    assert_eq!(*out.get(Alignment::new(1).unwrap()), 0);
}

#[test]
fn alignment_map_merge_adds() {
    let two = Alignment::new(2).unwrap();
    let mut left = AlignmentMap::<u64>::from_entries(vec![(two, 5)]);
    let right = AlignmentMap::<u64>::from_entries(vec![(two, 7), (Alignment::new(4).unwrap(), 1)]);
    left.merge(&right);
    assert_eq!(*left.get(two), 12);
    assert_eq!(*left.get(Alignment::new(4).unwrap()), 1);
    assert_eq!(*left.get(Alignment::new(8).unwrap()), 0);
}

#[test]
fn highest_populated_bucket() {
    let mut map = AlignmentMap::<u32>::default();
    assert!(highest_populated_alignment(&map).is_none());
    *map.get_mut(Alignment::from_exponent(2).unwrap()) = 1;
    *map.get_mut(Alignment::from_exponent(7).unwrap()) = 1;
    assert_eq!(highest_populated_alignment(&map).unwrap().exponent(), 7);
}

#[test]
fn map_alignment_map_reports_clamped_alignments() {
    let mut map = AlignmentMap::<u32>::default();
    *map.get_mut(Alignment::from_exponent(2).unwrap()) = 1;
    let mut order = Vec::new();
    let mut cb = |id: output_section_id::OutputSectionId, alignment: Alignment, value: &u32| {
        order.push((id.as_usize(), alignment.exponent(), *value));
        alignment.exponent()
    };
    let out = map_alignment_map(&map, &mut cb, output_section_id::text());
    assert_eq!(order.len(), 17);
    assert_eq!(order[0], (11, 2, 0));
    assert_eq!(order[14], (11, 2, 1));
    assert_eq!(order[15], (11, 1, 0));
    assert_eq!(order[16], (11, 0, 0));
    assert_eq!(*out.get(Alignment::from_exponent(16).unwrap()), 2);
    assert_eq!(*out.get(Alignment::from_exponent(1).unwrap()), 1);
}
