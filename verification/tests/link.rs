use linker_resolution::alignment::Alignment;
use linker_resolution::elf::{SectionFlags, SectionType, SHF_ALLOC, SHF_MERGE, SHF_STRINGS, SHF_WRITE, SHT_PROGBITS};
use linker_resolution::error::Error;
use linker_resolution::hash::{hash_bytes, PreHashed};
use linker_resolution::input::{
    Epilogue, Group, InputSection, InputSymbol, InternalSymDefInfo, ParsedInput, ParsedInputObject,
    Prelude,
};
use linker_resolution::merge_strings::StringToMerge;
use linker_resolution::merged_strings::merge_strings;
use linker_resolution::output_section_id;
use linker_resolution::output_section_id::OutputSectionId;
use linker_resolution::outputs::resolve_symbols_and_sections;
use linker_resolution::part_id::{PartId, TemporaryPartId, UnloadedSection};
use linker_resolution::resolution::{ResolvedFile, ResolvedGroup};
use linker_resolution::section_ids::assign_section_ids;
use linker_resolution::section_slot::SectionSlot;
use linker_resolution::symbol_db::{
    Args, FileId, GlobalName, SymbolDb, SymbolId, SymbolIdRange, SymbolName,
};
use linker_resolution::validation::inputs_are_valid;
use linker_resolution::value_flags::{ValueFlags, ADDRESS};

fn symbol(name: &'static [u8], st_info: u8, st_shndx: u16) -> InputSymbol<'static> {
    InputSymbol { name, st_info, st_other: 0, st_shndx, st_value: 0, st_size: 0 }
}

fn section(unloaded: Option<UnloadedSection<'static>>, flags: u64, data: &'static [u8]) -> InputSection<'static> {
    InputSection { unloaded, section_flags: SectionFlags(flags), ty: SectionType(SHT_PROGBITS), data }
}

fn custom(name: &'static [u8], merge: bool) -> Option<UnloadedSection<'static>> {
    Some(UnloadedSection {
        part_id: TemporaryPartId::Custom(name, Alignment::new(4).unwrap()),
        is_string_merge: merge,
    })
}

fn rodata_strings() -> Option<UnloadedSection<'static>> {
    Some(UnloadedSection {
        part_id: TemporaryPartId::BuiltIn(PartId::new(output_section_id::rodata(), Alignment::new(1).unwrap())),
        is_string_merge: true,
    })
}

fn object(
    file: usize,
    start: u32,
    symbols: Vec<InputSymbol<'static>>,
    sections: Vec<InputSection<'static>>,
) -> ParsedInput<'static> {
    ParsedInput::Object(ParsedInputObject {
        file_id: FileId::new(0, file),
        symbol_id_range: SymbolIdRange::input(SymbolId(start), symbols.len()),
        dynamic: false,
        optional: false,
        symbols,
        sections,
    })
}

/// Two objects. Both have a weak definition of `twice`, for which the second
/// has a strong one too in a third symbol; both hold strings to merge and
/// contribute to the custom section `mine`; the first refers to the start of
/// that section and to a name that nothing defines.
fn sample() -> (Vec<Group<'static>>, SymbolDb<'static>) {
    let groups = vec![Group {
        files: vec![
            ParsedInput::Prelude(Prelude { symbol_definitions: vec![InternalSymDefInfo::Undefined] }),
            object(
                1,
                1,
                vec![
                    symbol(b"", 0x00, 0),
                    symbol(b"twice", 0x22, 1),
                    symbol(b"__start_mine", 0x10, 0),
                    symbol(b"nowhere", 0x10, 0),
                ],
                vec![
                    section(rodata_strings(), SHF_ALLOC | SHF_MERGE | SHF_STRINGS, b"hello\0world\0"),
                    section(custom(b"mine", false), SHF_ALLOC | SHF_WRITE, b""),
                ],
            ),
            object(
                2,
                5,
                vec![symbol(b"", 0x00, 0), symbol(b"twice", 0x12, 1), symbol(b"nowhere", 0x10, 0)],
                vec![
                    section(custom(b"mine", false), SHF_ALLOC | SHF_WRITE, b""),
                    section(rodata_strings(), SHF_ALLOC | SHF_MERGE | SHF_STRINGS, b"world\0again\0"),
                    section(custom(b"other", false), SHF_ALLOC, b""),
                ],
            ),
            ParsedInput::Epilogue(Epilogue { start_symbol_id: SymbolId(8) }),
        ],
    }];
    let file = |f: usize| FileId::new(0, f);
    let db = SymbolDb {
        args: Args { num_threads: 1, base_address: 0x40_0000, strip_debug: false },
        global_names: vec![GlobalName { name: SymbolName::prehashed(b"twice"), symbol_id: SymbolId(2) }],
        symbol_file_ids: vec![file(0), file(1), file(1), file(1), file(1), file(2), file(2), file(2)],
        symbol_definitions: [0u32, 0, 2, 0, 0, 0, 2, 0].iter().map(|i| SymbolId(*i)).collect(),
        symbol_value_flags: vec![ValueFlags::from_bits(ADDRESS); 8],
        alternative_definitions: [0u32, 0, 6, 0, 0, 0, 0, 0].iter().map(|i| SymbolId(*i)).collect(),
        symbols_with_alternatives: vec![SymbolId(2)],
        start_stop_symbol_names: Vec::new(),
        epilogue_file_id: file(3),
    };
    (groups, db)
}

fn string(bytes: &[u8]) -> PreHashed<StringToMerge<'_>> {
    PreHashed::new(StringToMerge { bytes }, hash_bytes(bytes))
}

#[test]
fn a_link_is_resolved() {
    let (groups, mut db) = sample();
    assert!(inputs_are_valid(&groups, &db));
    let outputs = resolve_symbols_and_sections(&groups, &mut db).unwrap();

    assert!(matches!(&outputs.groups[0].files[0], ResolvedFile::Prelude(p) if p.symbol_definitions == [InternalSymDefInfo::Undefined]));
    assert!(matches!(outputs.groups[0].files[1], ResolvedFile::Object(_)));
    assert!(matches!(outputs.groups[0].files[2], ResolvedFile::Object(_)));
    assert!(matches!(outputs.groups[0].files[3], ResolvedFile::Epilogue(_)));

    let mine = outputs.output_sections.custom_name_to_id(b"mine").unwrap();
    let other = outputs.output_sections.custom_name_to_id(b"other").unwrap();
    assert_eq!(mine, OutputSectionId(18));
    assert_eq!(other, OutputSectionId(19));
    assert_eq!(outputs.output_sections.len(), 20);
    assert_eq!(outputs.output_sections.data_custom, vec![mine]);
    assert_eq!(outputs.output_sections.ro_custom, vec![other]);
    assert_eq!(outputs.output_sections.base_address, 0x40_0000);

    let ResolvedFile::Object(first) = &outputs.groups[0].files[1] else { panic!() };
    let slots = &first.non_dynamic.as_ref().unwrap().sections;
    assert!(matches!(slots[0], SectionSlot::MergeStrings(m) if m.part_id.section == output_section_id::rodata()));
    assert!(matches!(slots[1], SectionSlot::Unloaded(p) if p.section == mine && p.alignment == Alignment::new(4).unwrap()));
    let ResolvedFile::Object(second) = &outputs.groups[0].files[2] else { panic!() };
    let slots = &second.non_dynamic.as_ref().unwrap().sections;
    assert!(matches!(slots[0], SectionSlot::Unloaded(p) if p.section == mine));
    assert!(matches!(slots[2], SectionSlot::Unloaded(p) if p.section == other));

    let strings = outputs.merged_strings.get(output_section_id::rodata());
    assert_eq!(strings.len(), 6 + 6 + 6);
    assert_eq!(strings.string_count(), 3);
    assert_eq!(strings.totally_added_strings(), 4);
    assert!(strings.get(&string(b"hello\0")).is_some());
    assert!(strings.get(&string(b"again\0")).is_some());
    assert!(strings.get(&string(b"never\0")).is_none());
    let mut offsets = vec![
        strings.get(&string(b"hello\0")).unwrap(),
        strings.get(&string(b"world\0")).unwrap(),
        strings.get(&string(b"again\0")).unwrap(),
    ];
    offsets.sort();
    assert_eq!(offsets, vec![0, 6, 12]);
    assert_eq!(outputs.merged_strings.get(output_section_id::text()).len(), 0);

    assert_eq!(outputs.custom_start_stop_defs, vec![InternalSymDefInfo::SectionStart(mine)]);
    assert_eq!(db.symbol_definitions.len(), 9);
    assert_eq!(db.symbol_definitions[3], SymbolId(8));
    assert_eq!(db.symbol_definitions[8], SymbolId(8));
    assert_eq!(db.symbol_definitions[4], SymbolId(4));
    assert_eq!(db.symbol_definitions[7], SymbolId(4));
    assert_eq!(db.symbol_definitions[2], SymbolId(6));
    assert_eq!(db.symbol_definitions[6], SymbolId(6));
    assert_eq!(db.start_stop_symbol_names[0].value.bytes, b"__start_mine");
}

#[test]
fn a_link_with_a_broken_string_section_fails() {
    let (mut groups, mut db) = sample();
    if let ParsedInput::Object(obj) = &mut groups[0].files[2] {
        obj.sections[1].data = b"no end";
    }
    assert!(inputs_are_valid(&groups, &db));
    let r = resolve_symbols_and_sections(&groups, &mut db);
    assert_eq!(r.err(), Some(Error::UnterminatedString));
}

#[test]
fn a_link_without_objects_is_refused() {
    let groups = vec![Group {
        files: vec![ParsedInput::Prelude(Prelude { symbol_definitions: Vec::new() })],
    }];
    let mut db = SymbolDb {
        args: Args { num_threads: 1, base_address: 0, strip_debug: false },
        global_names: Vec::new(),
        symbol_file_ids: vec![FileId::new(0, 0)],
        symbol_definitions: vec![SymbolId(0)],
        symbol_value_flags: vec![ValueFlags::empty()],
        alternative_definitions: vec![SymbolId(0)],
        symbols_with_alternatives: Vec::new(),
        start_stop_symbol_names: Vec::new(),
        epilogue_file_id: FileId::new(0, 0),
    };
    assert!(inputs_are_valid(&groups, &db));
    let r = resolve_symbols_and_sections(&groups, &mut db);
    assert_eq!(r.err(), Some(Error::NoInputFiles));
}

#[test]
fn a_slot_of_another_kind_fails_merging() {
    let (groups, mut db) = sample();
    assert!(inputs_are_valid(&groups, &db));
    let outputs = resolve_symbols_and_sections(&groups, &mut db).unwrap();
    let mut resolved: Vec<ResolvedGroup> = outputs.groups;
    if let ResolvedFile::Object(obj) = &mut resolved[0].files[1] {
        obj.non_dynamic.as_mut().unwrap().sections[0] = SectionSlot::Discard;
    }
    let r = merge_strings(&resolved, &outputs.output_sections);
    assert_eq!(r.err(), Some(Error::ExpectedMergeStringsSlot));
    assert_eq!(Error::ExpectedMergeStringsSlot.message(), "Internal error: expected SectionSlot::MergeStrings");
}

#[test]
fn a_slot_without_output_section_fails_merging() {
    let (groups, mut db) = sample();
    assert!(inputs_are_valid(&groups, &db));
    let outputs = resolve_symbols_and_sections(&groups, &mut db).unwrap();
    let mut resolved: Vec<ResolvedGroup> = outputs.groups;
    if let ResolvedFile::Object(obj) = &mut resolved[0].files[1] {
        if let SectionSlot::MergeStrings(m) = &mut obj.non_dynamic.as_mut().unwrap().sections[0] {
            m.part_id = PartId::custom_placeholder();
        }
    }
    let r = merge_strings(&resolved, &outputs.output_sections);
    assert_eq!(r.err(), Some(Error::ExpectedMergeStringsSlot));
}

#[test]
fn section_ids_are_assigned_in_file_order() {
    let (groups, mut db) = sample();
    assert!(inputs_are_valid(&groups, &db));
    let (mut resolved, _, _) =
        linker_resolution::driver::resolve_symbols_in_files(&groups, &mut db).unwrap();
    let output_sections = assign_section_ids(&mut resolved, &db.args).unwrap();
    assert_eq!(output_sections.custom.len(), 2);
    assert_eq!(output_sections.custom[0].name, b"mine");
    assert_eq!(output_sections.custom[1].name, b"other");
    assert_eq!(Error::TooLarge.message(), "The input is too large");
    assert_eq!(Error::UndefinedLocalSymbol.message(), "Only globals should be undefined");
}
