use linker_resolution::alignment::Alignment;
use linker_resolution::output_section_id;
use linker_resolution::output_section_id::OutputSections;
use linker_resolution::output_section_map::OutputSectionMap;
use linker_resolution::output_section_part_map::OutputSectionPartMap;
use linker_resolution::section_slot::SectionSlot;

#[test]
fn test_merge_parts() {
    let output_sections = OutputSections::for_testing();
    let all_1 = OutputSectionPartMap::<u32>::with_size(output_sections.len())
        .output_order_map(&output_sections, |_, _, _| 1);
    let sum_of_1s: OutputSectionMap<u32> = all_1.merge_parts(|values| values.iter().sum());
    sum_of_1s.for_each(|section_id, sum| {
        assert!(*sum > 0, "Expected non-zero sum for section {section_id:?}");
    });

    let mut headers_only = OutputSectionPartMap::<u32>::with_size(output_sections.len());
    headers_only.file_headers += 42;
    let merged: OutputSectionMap<u32> = headers_only.merge_parts(|values| values.iter().sum());
    assert_eq!(*merged.built_in(output_section_id::headers()), 42);
    assert_eq!(*merged.built_in(output_section_id::text()), 0);
    assert_eq!(*merged.built_in(output_section_id::bss()), 0);
}

#[test]
fn test_mut_with_map() {
    let output_sections = OutputSections::for_testing();
    let mut input1 = OutputSectionPartMap::<u32>::with_size(output_sections.len())
        .output_order_map(&output_sections, |_, _, _| 1);
    let input2 = OutputSectionPartMap::<u32>::with_size(output_sections.len())
        .output_order_map(&output_sections, |_, _, _| 2);
    let expected = OutputSectionPartMap::<u32>::with_size(output_sections.len())
        .output_order_map(&output_sections, |_, _, _| 3);
    input1.mut_with_map(&input2, |a, b| *a += *b);
    assert_eq!(input1, expected);
}

#[test]
fn test_merge() {
    let output_sections = OutputSections::for_testing();
    let mut input1 = OutputSectionPartMap::<u32>::with_size(output_sections.len())
        .output_order_map(&output_sections, |_, _, _| 1);
    let input2 = OutputSectionPartMap::<u32>::with_size(output_sections.len())
        .output_order_map(&output_sections, |_, _, _| 2);
    let expected = OutputSectionPartMap::<u32>::with_size(output_sections.len())
        .output_order_map(&output_sections, |_, _, _| 3);
    input1.merge(&input2);
    assert_eq!(input1, expected);
}

#[test]
fn test_merge_with_custom_sections() {
    let output_sections = OutputSections::for_testing();
    let mut m1 = OutputSectionPartMap::<u32>::with_size(output_sections.len());
    let mut m2 = OutputSectionPartMap::<u32>::with_size(output_sections.len());
    assert_eq!(m2.len(), output_sections.len());
    m2.resize(output_sections.len() + 2);
    m1.merge(&m2);
    assert_eq!(m1.len(), output_sections.len() + 2);
}

#[test]
fn test_output_order_map_consistent() {
    let output_sections = output_section_id::OutputSections::for_testing();
    let mut part_map = OutputSectionPartMap::<u32>::with_size(output_sections.len());
    part_map.resize(output_sections.len());
    let mut ordering_a = Vec::new();
    part_map.output_order_map(&output_sections, |output_section_id, _, _| {
        if ordering_a.last() != Some(&output_section_id.as_usize()) {
            ordering_a.push(output_section_id.as_usize());
        }
    });
    let mut ordering_b = Vec::new();
    output_sections.sections_do(|id, _| ordering_b.push(id.as_usize()));
    assert_eq!(ordering_a, ordering_b);
}

#[test]
fn section_slot_is_copy() {
    fn assert_copy<T: Copy>(_v: T) {}

    assert_copy(SectionSlot::Discard);
}

#[test]
fn map_without_alignment_visits_every_part() {
    let output_sections = OutputSections::for_testing();
    let ones = OutputSectionPartMap::<u32>::with_size(output_sections.len())
        .output_order_map(&output_sections, |_, _, _| 1u32);
    let doubled = ones.map(&output_sections, |_, value| *value * 2);
    let expected = OutputSectionPartMap::<u32>::with_size(output_sections.len())
        .output_order_map(&output_sections, |_, _, _| 2u32);
    assert_eq!(doubled, expected);
}

#[test]
fn map_passes_the_section_of_each_part() {
    let output_sections = OutputSections::for_testing();
    let zeros = OutputSectionPartMap::<u32>::with_size(output_sections.len());
    let ids = zeros.map(&output_sections, |id, _| id.as_usize());
    assert_eq!(ids.file_headers, 0);
    assert_eq!(ids.shstrtab, 1);
    assert_eq!(ids.symtab_locals, 2);
    assert_eq!(ids.symtab_globals, 2);
    assert_eq!(ids.symtab_strings, 3);
    assert_eq!(ids.got, 4);
    assert_eq!(ids.plt, 5);
    assert_eq!(ids.rela_plt, 6);
    for offset in 0..ids.regular.len() {
        for value in ids.regular[offset].raw_values() {
            assert_eq!(*value, offset + 7);
        }
    }
}

#[test]
fn output_order_starts_with_headers_and_ends_with_custom_bss() {
    let output_sections = OutputSections::for_testing();
    let mut order = Vec::new();
    output_sections.sections_do(|id, _| order.push(id.as_usize()));
    assert_eq!(
        order,
        vec![0, 7, 8, 9, 10, 1, 2, 3, 6, 18, 5, 11, 12, 13, 19, 4, 14, 20, 15, 16, 17, 21]
    );
}

#[test]
fn buckets_are_visited_by_descending_alignment() {
    let output_sections = OutputSections::for_testing();
    let map = OutputSectionPartMap::<u32>::with_size(output_sections.len());
    let mut seen = Vec::new();
    map.output_order_map(&output_sections, |id, _, value| {
        seen.push((id.as_usize(), *value));
    });
    assert_eq!(seen.len(), 8 + 15 * 17);
    let text = output_section_id::text();
    let mut map = OutputSectionPartMap::<u32>::with_size(output_sections.len());
    for exponent in 0..17u8 {
        let alignment = Alignment::from_exponent(exponent).unwrap();
        *map.regular_mut(text, alignment) = exponent as u32 + 100;
    }
    let mut values = Vec::new();
    map.output_order_map(&output_sections, |id, _, value| {
        if id == text {
            values.push(*value);
        }
    });
    let expected: Vec<u32> = (0..17u32).rev().map(|e| e + 100).collect();
    assert_eq!(values, expected);
}

#[test]
fn reported_alignment_is_clamped() {
    let output_sections = OutputSections::for_testing();
    let init_array = output_section_id::init_array();
    assert_eq!(init_array.min_alignment().exponent(), 3);
    let mut map = OutputSectionPartMap::<u32>::with_size(output_sections.len());
    *map.regular_mut(init_array, Alignment::from_exponent(5).unwrap()) = 9;
    let reported = map.output_order_map(&output_sections, |id, alignment, _| {
        if id == init_array {
            alignment.exponent()
        } else {
            0
        }
    });
    for exponent in 0..17u8 {
        let alignment = Alignment::from_exponent(exponent).unwrap();
        let expected = exponent.clamp(3, 5);
        assert_eq!(*reported.regular(init_array, alignment), expected);
    }
}

#[test]
fn reported_alignment_of_an_empty_section_is_its_least() {
    let output_sections = OutputSections::for_testing();
    let init_array = output_section_id::init_array();
    let map = OutputSectionPartMap::<u32>::with_size(output_sections.len());
    let reported = map.output_order_map(&output_sections, |_, alignment, _| alignment.exponent());
    for exponent in 0..17u8 {
        let alignment = Alignment::from_exponent(exponent).unwrap();
        assert_eq!(*reported.regular(init_array, alignment), 3);
        assert_eq!(*reported.regular(output_section_id::text(), alignment), 0);
    }
    assert_eq!(reported.plt, 4);
    assert_eq!(reported.got, 3);
    assert_eq!(reported.symtab_locals, 3);
    assert_eq!(reported.file_headers, 0);
}

#[test]
fn merge_parts_sees_the_parts_of_each_section() {
    let output_sections = OutputSections::for_testing();
    let mut map = OutputSectionPartMap::<u32>::with_size(output_sections.len());
    map.symtab_locals = 3;
    map.symtab_globals = 4;
    let lengths = map.merge_parts(|values| values.len());
    assert_eq!(lengths.len(), output_sections.len());
    assert_eq!(*lengths.built_in(output_section_id::headers()), 1);
    assert_eq!(*lengths.built_in(output_section_id::symtab()), 2);
    assert_eq!(*lengths.built_in(output_section_id::text()), 17);
    let firsts = map.merge_parts(|values| values[0]);
    assert_eq!(*firsts.built_in(output_section_id::symtab()), 3);
    let lasts = map.merge_parts(|values| values[values.len() - 1]);
    assert_eq!(*lasts.built_in(output_section_id::symtab()), 4);
}

#[test]
fn mut_with_map_returns_what_the_callback_returns() {
    let output_sections = OutputSections::for_testing();
    let mut left = OutputSectionPartMap::<u32>::with_size(output_sections.len())
        .output_order_map(&output_sections, |_, _, _| 10);
    let mut right = OutputSectionPartMap::<u32>::with_size(output_sections.len() - 2);
    right.file_headers = 1;
    for section in right.regular.iter_mut() {
        for value in section.values.iter_mut() {
            *value = 1;
        }
    }
    assert_eq!(right.len(), output_sections.len() - 2);
    let out = left.mut_with_map(&right, |a, b| {
        let before = *a;
        *a -= *b;
        before
    });
    assert_eq!(out.len(), output_sections.len() - 2);
    assert_eq!(out.file_headers, 10);
    assert_eq!(left.file_headers, 9);
    assert_eq!(left.len(), output_sections.len());
    let last = output_sections.len() - 1 - 7;
    assert!(left.regular[last].raw_values().iter().all(|v| *v == 10));
    assert!(left.regular[0].raw_values().iter().all(|v| *v == 9));
}

#[test]
fn resize_keeps_the_shared_prefix() {
    let output_sections = OutputSections::for_testing();
    let mut map = OutputSectionPartMap::<u32>::with_size(output_sections.len())
        .output_order_map(&output_sections, |_, _, _| 7);
    map.resize(10);
    assert_eq!(map.len(), 10);
    assert!(map.regular[2].raw_values().iter().all(|v| *v == 7));
    map.resize(12);
    assert_eq!(map.len(), 12);
    assert!(map.regular[2].raw_values().iter().all(|v| *v == 7));
    assert!(map.regular[4].raw_values().iter().all(|v| *v == 0));
    assert_eq!(map.file_headers, 7);
}

#[test]
fn take_mut_splits_each_buffer() {
    let output_sections = OutputSections::for_testing();
    let mut storage = vec![0u8; 64];
    for (i, byte) in storage.iter_mut().enumerate() {
        *byte = i as u8;
    }
    let (headers, rest) = storage.split_at_mut(16);
    let (got, _) = rest.split_at_mut(16);
    let mut buffers = OutputSectionPartMap::<&mut [u8]>::with_size(output_sections.len());
    buffers.file_headers = headers;
    buffers.got = got;
    let mut sizes = OutputSectionPartMap::<usize>::with_size(output_sections.len());
    sizes.file_headers = 4;
    sizes.got = 16;
    let taken = buffers.take_mut(&sizes);
    assert_eq!(taken.file_headers, &[0u8, 1, 2, 3][..]);
    assert_eq!(buffers.file_headers.len(), 12);
    assert_eq!(buffers.file_headers[0], 4);
    assert_eq!(taken.got.len(), 16);
    assert_eq!(taken.got[0], 16);
    assert_eq!(buffers.got.len(), 0);
    assert_eq!(taken.plt.len(), 0);
}
