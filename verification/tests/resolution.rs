use linker_resolution::alignment::Alignment;
use linker_resolution::classifier::resolve_sections;
use linker_resolution::driver::{
    idle_capacity, request_file_id, resolve_symbols_in_files, start_resolution, when_queue_empty,
    when_registered, WhenEmpty, WhenRegistered,
};
use linker_resolution::elf::{
    SectionFlags, SectionType, SHF_ALLOC, SHF_GNU_RETAIN, SHF_MERGE, SHF_STRINGS, SHT_PROGBITS,
};
use linker_resolution::error::Error;
use linker_resolution::hash::hash_bytes;
use linker_resolution::input::{
    Epilogue, Group, InputSection, InputSymbol, InternalSymDefInfo, ParsedInput, ParsedInputObject,
    Prelude,
};
use linker_resolution::output_section_id;
use linker_resolution::output_section_id::{OutputSectionId, OutputSections};
use linker_resolution::part_id::{PartId, TemporaryPartId, UnloadedSection};
use linker_resolution::resolution::{
    process_object, resolve_alternative_symbol_definitions, resolve_dynamic_symbols, resolve_symbol,
    resolve_symbols, select_candidate, select_symbol, Candidate, NotLoaded, ResolvedFile,
    ResolvedGroup, ResolvedObject, SymbolStrength, UndefinedSymbol,
};
use linker_resolution::section_slot::SectionSlot;
use linker_resolution::symbol_db::{
    Args, FileId, GlobalName, SymbolDb, SymbolId, SymbolIdRange, SymbolName,
};
use linker_resolution::undefined_symbols::{
    allocate_start_stop_symbol_id, canonicalise_undefined_symbols, sort_by_symbol,
};
use linker_resolution::validation::inputs_are_valid;
use linker_resolution::value_flags::{ValueFlags, ADDRESS, CAN_BYPASS_GOT, DYNAMIC, FUNCTION};

const GLOBAL: u8 = 0x10;
const WEAK: u8 = 0x20;
const LOCAL: u8 = 0x00;
const GLOBAL_FUNC: u8 = 0x12;
const GLOBAL_OBJECT: u8 = 0x11;

fn symbol(name: &'static [u8], st_info: u8, st_shndx: u16, st_size: u64) -> InputSymbol<'static> {
    InputSymbol { name, st_info, st_other: 0, st_shndx, st_value: 0, st_size }
}

fn object(
    group: usize,
    file: usize,
    start: u32,
    optional: bool,
    symbols: Vec<InputSymbol<'static>>,
) -> ParsedInputObject<'static> {
    ParsedInputObject {
        file_id: FileId::new(group, file),
        symbol_id_range: SymbolIdRange::input(SymbolId(start), symbols.len()),
        dynamic: false,
        optional,
        symbols,
        sections: Vec::new(),
    }
}

fn args() -> Args {
    Args { num_threads: 1, base_address: 0x40_0000, strip_debug: false }
}

fn name(bytes: &'static [u8], symbol_id: u32) -> GlobalName<'static> {
    GlobalName { name: SymbolName::prehashed(bytes), symbol_id: SymbolId(symbol_id) }
}

/// A link of one object that is always loaded and three members of an
/// archive. The first object refers to `foo`, which the first member
/// defines, weakly to `bar`, which the second member defines, and to
/// `missing`, which nothing defines.
fn sample_groups() -> Vec<Group<'static>> {
    vec![
        Group {
            files: vec![
                ParsedInput::Prelude(Prelude { symbol_definitions: vec![InternalSymDefInfo::Undefined] }),
                ParsedInput::Object(object(
                    0,
                    1,
                    1,
                    false,
                    vec![
                        symbol(b"", LOCAL, 0, 0),
                        symbol(b"foo", GLOBAL, 0, 0),
                        symbol(b"bar", WEAK, 0, 0),
                        symbol(b"missing", GLOBAL, 0, 0),
                    ],
                )),
            ],
        },
        Group {
            files: vec![
                ParsedInput::Object(object(
                    1,
                    0,
                    5,
                    true,
                    vec![symbol(b"", LOCAL, 0, 0), symbol(b"foo", GLOBAL_FUNC, 1, 8)],
                )),
                ParsedInput::Object(object(
                    1,
                    1,
                    7,
                    true,
                    vec![symbol(b"", LOCAL, 0, 0), symbol(b"bar", GLOBAL_FUNC, 1, 8)],
                )),
                ParsedInput::Object(object(
                    1,
                    2,
                    9,
                    true,
                    vec![symbol(b"", LOCAL, 0, 0), symbol(b"baz", GLOBAL_FUNC, 1, 8)],
                )),
            ],
        },
        Group { files: vec![ParsedInput::Epilogue(Epilogue { start_symbol_id: SymbolId(11) })] },
    ]
}

fn sample_db() -> SymbolDb<'static> {
    let files = [
        FileId::new(0, 0),
        FileId::new(0, 1),
        FileId::new(0, 1),
        FileId::new(0, 1),
        FileId::new(0, 1),
        FileId::new(1, 0),
        FileId::new(1, 0),
        FileId::new(1, 1),
        FileId::new(1, 1),
        FileId::new(1, 2),
        FileId::new(1, 2),
    ];
    SymbolDb {
        args: args(),
        global_names: vec![name(b"foo", 6), name(b"bar", 8), name(b"baz", 10)],
        symbol_file_ids: files.to_vec(),
        symbol_definitions: [0u32, 0, 0, 0, 0, 0, 6, 0, 8, 0, 10].iter().map(|i| SymbolId(*i)).collect(),
        symbol_value_flags: vec![ValueFlags::from_bits(ADDRESS); 11],
        alternative_definitions: vec![SymbolId(0); 11],
        symbols_with_alternatives: Vec::new(),
        start_stop_symbol_names: Vec::new(),
        epilogue_file_id: FileId::new(2, 0),
    }
}

fn candidate(id: u32, strength: SymbolStrength, dynamic: bool) -> Candidate {
    Candidate { symbol_id: SymbolId(id), strength, dynamic }
}

#[test]
fn elf_symbol_kinds() {
    assert!(symbol(b"w", WEAK, 1, 0).is_weak());
    assert!(!symbol(b"g", GLOBAL, 1, 0).is_weak());
    assert!(!symbol(b"l", LOCAL, 1, 0).is_weak());
    assert!(symbol(b"l", LOCAL, 1, 0).is_local());
    assert!(symbol(b"l", 0x02, 1, 0).is_local());
    assert!(!symbol(b"g", GLOBAL, 1, 0).is_local());
    assert!(symbol(b"c", GLOBAL_OBJECT, 0xfff2, 16).is_common());
    assert!(!symbol(b"c", GLOBAL_OBJECT, 0xfff1, 16).is_common());
    assert_eq!(symbol(b"c", GLOBAL_OBJECT, 0xfff2, 16).st_size(), 16);
}

#[test]
fn elf_symbol_definitions() {
    assert!(symbol(b"f", GLOBAL_FUNC, 1, 0).is_definition());
    assert!(symbol(b"o", GLOBAL_OBJECT, 1, 0).is_definition());
    assert!(!symbol(b"n", GLOBAL, 1, 0).is_definition());
    assert!(symbol(b"n", GLOBAL, 1, 4).is_definition());
    assert!(!symbol(b"u", GLOBAL_FUNC, 0, 8).is_definition());
    assert!(!symbol(b"c", GLOBAL_OBJECT, 0xfff2, 8).is_definition());
    assert!(!symbol(b"a", GLOBAL_OBJECT, 0xfff1, 8).is_definition());
    assert!(symbol(b"x", GLOBAL_FUNC, 0xffff, 8).is_definition());
    assert!(!symbol(b"s", 0x13, 1, 8).is_definition());
}

#[test]
fn strong_alternative_beats_weak_first() {
    let chosen = select_candidate(
        SymbolId(1),
        SymbolStrength::Weak,
        &[candidate(2, SymbolStrength::Strong, false)],
    );
    assert_eq!(chosen, SymbolId(2));
}

#[test]
fn largest_common_wins() {
    let chosen = select_candidate(
        SymbolId(1),
        SymbolStrength::Common(8),
        &[candidate(2, SymbolStrength::Common(16), false)],
    );
    assert_eq!(chosen, SymbolId(2));
    let chosen = select_candidate(
        SymbolId(1),
        SymbolStrength::Weak,
        &[
            candidate(2, SymbolStrength::Common(8), false),
            candidate(3, SymbolStrength::Common(16), false),
            candidate(4, SymbolStrength::Common(4), false),
        ],
    );
    assert_eq!(chosen, SymbolId(3));
}

#[test]
fn equal_commons_keep_the_earliest() {
    let chosen = select_candidate(
        SymbolId(1),
        SymbolStrength::Weak,
        &[
            candidate(2, SymbolStrength::Common(8), false),
            candidate(3, SymbolStrength::Common(8), false),
        ],
    );
    assert_eq!(chosen, SymbolId(3));
}

#[test]
fn dynamic_strong_does_not_displace_weak() {
    let chosen = select_candidate(
        SymbolId(2),
        SymbolStrength::Weak,
        &[candidate(1, SymbolStrength::Strong, true)],
    );
    assert_eq!(chosen, SymbolId(2));
}

#[test]
fn first_of_two_weak_wins() {
    let chosen =
        select_candidate(SymbolId(1), SymbolStrength::Weak, &[candidate(2, SymbolStrength::Weak, false)]);
    assert_eq!(chosen, SymbolId(1));
}

#[test]
fn strong_first_wins() {
    let chosen = select_candidate(
        SymbolId(1),
        SymbolStrength::Strong,
        &[candidate(2, SymbolStrength::Strong, false), candidate(3, SymbolStrength::Common(9), false)],
    );
    assert_eq!(chosen, SymbolId(1));
}

#[test]
fn earliest_strong_alternative_wins() {
    let chosen = select_candidate(
        SymbolId(1),
        SymbolStrength::Weak,
        &[
            candidate(2, SymbolStrength::Strong, false),
            candidate(3, SymbolStrength::Common(9), false),
            candidate(4, SymbolStrength::Strong, false),
        ],
    );
    assert_eq!(chosen, SymbolId(4));
}

#[test]
fn undefined_first_falls_back_to_earliest_defined_alternative() {
    let chosen = select_candidate(
        SymbolId(1),
        SymbolStrength::Undefined,
        &[
            candidate(2, SymbolStrength::Weak, false),
            candidate(3, SymbolStrength::Strong, true),
            candidate(4, SymbolStrength::Undefined, false),
        ],
    );
    assert_eq!(chosen, SymbolId(3));
    let chosen = select_candidate(
        SymbolId(1),
        SymbolStrength::Undefined,
        &[candidate(2, SymbolStrength::Undefined, false)],
    );
    assert_eq!(chosen, SymbolId(1));
    assert_eq!(select_candidate(SymbolId(1), SymbolStrength::Undefined, &[]), SymbolId(1));
}

fn loaded<'a>(groups: &'a [Group<'a>], group: usize, file: usize) -> ResolvedFile<'a> {
    match &groups[group].files[file] {
        ParsedInput::Object(obj) => ResolvedFile::Object(ResolvedObject {
            object: obj,
            file_id: obj.file_id,
            symbol_id_range: obj.symbol_id_range,
            non_dynamic: None,
        }),
        _ => panic!("not an object"),
    }
}

fn not_loaded<'a>(groups: &'a [Group<'a>], group: usize, file: usize) -> ResolvedFile<'a> {
    match &groups[group].files[file] {
        ParsedInput::Object(obj) => {
            ResolvedFile::NotLoaded(NotLoaded { symbol_id_range: obj.symbol_id_range })
        }
        _ => ResolvedFile::NotLoaded(NotLoaded { symbol_id_range: SymbolIdRange::prelude(0) }),
    }
}

#[test]
fn symbol_strength_by_file_and_kind() {
    let groups = vec![Group {
        files: vec![
            ParsedInput::Prelude(Prelude { symbol_definitions: Vec::new() }),
            ParsedInput::Object(object(
                0,
                1,
                1,
                false,
                vec![
                    symbol(b"", LOCAL, 0, 0),
                    symbol(b"s", GLOBAL_FUNC, 1, 0),
                    symbol(b"w", 0x22, 1, 0),
                    symbol(b"c", GLOBAL_OBJECT, 0xfff2, 24),
                ],
            )),
            ParsedInput::Object(object(0, 2, 5, true, vec![symbol(b"", LOCAL, 0, 0), symbol(b"s", GLOBAL_FUNC, 1, 0)])),
        ],
    }];
    let mut db = sample_db();
    db.symbol_file_ids = vec![
        FileId::new(0, 0),
        FileId::new(0, 1),
        FileId::new(0, 1),
        FileId::new(0, 1),
        FileId::new(0, 1),
        FileId::new(0, 2),
        FileId::new(0, 2),
    ];
    let resolved = vec![ResolvedGroup {
        files: vec![not_loaded(&groups, 0, 0), loaded(&groups, 0, 1), not_loaded(&groups, 0, 2)],
    }];
    assert_eq!(db.symbol_strength(SymbolId(2), &resolved), SymbolStrength::Strong);
    assert_eq!(db.symbol_strength(SymbolId(3), &resolved), SymbolStrength::Weak);
    assert_eq!(db.symbol_strength(SymbolId(4), &resolved), SymbolStrength::Common(24));
    assert_eq!(db.symbol_strength(SymbolId(6), &resolved), SymbolStrength::Undefined);
    assert_eq!(db.symbol_strength(SymbolId(0), &resolved), SymbolStrength::Undefined);
}

#[test]
fn alternatives_are_all_given_the_selected_definition() {
    let groups = vec![Group {
        files: vec![
            ParsedInput::Prelude(Prelude { symbol_definitions: Vec::new() }),
            ParsedInput::Object(object(0, 1, 1, false, vec![symbol(b"", LOCAL, 0, 0), symbol(b"x", 0x22, 1, 0)])),
            ParsedInput::Object(object(0, 2, 3, false, vec![symbol(b"", LOCAL, 0, 0), symbol(b"x", GLOBAL_FUNC, 1, 0)])),
            ParsedInput::Object(object(0, 3, 5, false, vec![symbol(b"", LOCAL, 0, 0), symbol(b"x", 0x22, 1, 0)])),
        ],
    }];
    let file = |f: usize| FileId::new(0, f);
    let mut db = SymbolDb {
        args: args(),
        global_names: vec![name(b"x", 2)],
        symbol_file_ids: vec![file(0), file(1), file(1), file(2), file(2), file(3), file(3)],
        symbol_definitions: [0u32, 0, 2, 0, 2, 0, 2].iter().map(|i| SymbolId(*i)).collect(),
        symbol_value_flags: vec![ValueFlags::from_bits(ADDRESS); 7],
        alternative_definitions: [0u32, 0, 6, 0, 0, 0, 4].iter().map(|i| SymbolId(*i)).collect(),
        symbols_with_alternatives: vec![SymbolId(2)],
        start_stop_symbol_names: Vec::new(),
        epilogue_file_id: file(0),
    };
    let resolved = vec![ResolvedGroup {
        files: vec![
            not_loaded(&groups, 0, 0),
            loaded(&groups, 0, 1),
            loaded(&groups, 0, 2),
            loaded(&groups, 0, 3),
        ],
    }];
    assert_eq!(select_symbol(&db, SymbolId(2), &[SymbolId(6), SymbolId(4)], &resolved), SymbolId(4));
    resolve_alternative_symbol_definitions(&mut db, &resolved).unwrap();
    assert_eq!(db.symbol_definitions[2], SymbolId(4));
    assert_eq!(db.symbol_definitions[4], SymbolId(4));
    assert_eq!(db.symbol_definitions[6], SymbolId(4));
    assert!(db.symbols_with_alternatives.is_empty());
    assert!(db.alternative_definitions.is_empty());
}

#[test]
fn resolve_symbol_skips_defined_and_null_entries() {
    let groups = sample_groups();
    let db = sample_db();
    let ParsedInput::Object(obj) = &groups[0].files[1] else { panic!() };
    let mut requested = Vec::new();
    let mut undefined = Vec::new();
    let mut definition = SymbolId(9);
    resolve_symbol(1, &obj.symbols[1], &mut definition, &db, obj, &mut requested, &mut undefined).unwrap();
    assert_eq!(definition, SymbolId(9));
    let mut definition = SymbolId(0);
    resolve_symbol(0, &obj.symbols[1], &mut definition, &db, obj, &mut requested, &mut undefined).unwrap();
    assert_eq!(definition, SymbolId(0));
    assert!(requested.is_empty());
    assert!(undefined.is_empty());
}

#[test]
fn resolve_symbol_requests_the_defining_file() {
    let groups = sample_groups();
    let db = sample_db();
    let ParsedInput::Object(obj) = &groups[0].files[1] else { panic!() };
    let mut requested = Vec::new();
    let mut undefined = Vec::new();
    let mut definition = SymbolId(0);
    resolve_symbol(1, &obj.symbols[1], &mut definition, &db, obj, &mut requested, &mut undefined).unwrap();
    assert_eq!(definition, SymbolId(6));
    assert_eq!(requested, vec![FileId::new(1, 0)]);
    assert!(undefined.is_empty());
}

#[test]
fn resolve_symbol_records_weak_references() {
    let groups = sample_groups();
    let db = sample_db();
    let ParsedInput::Object(obj) = &groups[0].files[1] else { panic!() };
    let mut requested = Vec::new();
    let mut undefined: Vec<UndefinedSymbol> = Vec::new();
    let mut definition = SymbolId(0);
    resolve_symbol(2, &obj.symbols[2], &mut definition, &db, obj, &mut requested, &mut undefined).unwrap();
    assert_eq!(definition, SymbolId(8));
    assert!(requested.is_empty());
    assert_eq!(undefined.len(), 1);
    assert_eq!(undefined[0].ignore_if_loaded, Some(FileId::new(1, 1)));
    assert_eq!(undefined[0].name.value.bytes, b"bar");
    assert_eq!(undefined[0].name.hash, hash_bytes(b"bar"));
    assert_eq!(undefined[0].symbol_id, SymbolId(3));
}

#[test]
fn resolve_symbol_records_unknown_names() {
    let groups = sample_groups();
    let db = sample_db();
    let ParsedInput::Object(obj) = &groups[0].files[1] else { panic!() };
    let mut requested = Vec::new();
    let mut undefined: Vec<UndefinedSymbol> = Vec::new();
    let mut definition = SymbolId(0);
    resolve_symbol(3, &obj.symbols[3], &mut definition, &db, obj, &mut requested, &mut undefined).unwrap();
    assert_eq!(definition, SymbolId(0));
    assert!(requested.is_empty());
    assert_eq!(undefined.len(), 1);
    assert_eq!(undefined[0].ignore_if_loaded, None);
    assert_eq!(undefined[0].name.value.bytes, b"missing");
    assert_eq!(undefined[0].symbol_id, SymbolId(4));
}

#[test]
fn resolve_symbol_refuses_undefined_locals() {
    let groups = sample_groups();
    let db = sample_db();
    let ParsedInput::Object(obj) = &groups[0].files[1] else { panic!() };
    let local = symbol(b"foo", LOCAL, 0, 0);
    let mut requested = Vec::new();
    let mut undefined = Vec::new();
    let mut definition = SymbolId(0);
    let r = resolve_symbol(1, &local, &mut definition, &db, obj, &mut requested, &mut undefined);
    assert_eq!(r, Err(Error::UndefinedLocalSymbol));
    assert_eq!(definition, SymbolId(0));
}

#[test]
fn references_within_one_file_ask_for_nothing() {
    let groups = sample_groups();
    let mut db = sample_db();
    db.global_names = vec![name(b"foo", 4)];
    let ParsedInput::Object(obj) = &groups[0].files[1] else { panic!() };
    let mut requested = Vec::new();
    let mut undefined = Vec::new();
    let mut definition = SymbolId(0);
    resolve_symbol(1, &obj.symbols[1], &mut definition, &db, obj, &mut requested, &mut undefined).unwrap();
    assert_eq!(definition, SymbolId(4));
    assert!(requested.is_empty());
    assert!(undefined.is_empty());
}

#[test]
fn weak_references_to_the_prelude_are_not_recorded() {
    let groups = sample_groups();
    let mut db = sample_db();
    db.global_names = vec![name(b"bar", 0)];
    let ParsedInput::Object(obj) = &groups[0].files[1] else { panic!() };
    let mut requested = Vec::new();
    let mut undefined = Vec::new();
    let mut definition = SymbolId(0);
    resolve_symbol(2, &obj.symbols[2], &mut definition, &db, obj, &mut requested, &mut undefined).unwrap();
    assert!(requested.is_empty());
    assert!(undefined.is_empty());
}

#[test]
fn resolve_symbols_goes_through_the_table() {
    let groups = sample_groups();
    let db = sample_db();
    let ParsedInput::Object(obj) = &groups[0].files[1] else { panic!() };
    let mut requested = Vec::new();
    let mut undefined = Vec::new();
    let mut definitions = vec![SymbolId(0); 4];
    resolve_symbols(obj, &db, &mut requested, &mut undefined, &mut definitions).unwrap();
    assert_eq!(definitions, vec![SymbolId(0), SymbolId(6), SymbolId(8), SymbolId(0)]);
    assert_eq!(requested, vec![FileId::new(1, 0)]);
    assert_eq!(undefined.len(), 2);
    let mut requested = Vec::new();
    let mut undefined = Vec::new();
    let mut definitions = vec![SymbolId(0); 2];
    resolve_dynamic_symbols(obj, &db, &mut requested, &mut undefined, &mut definitions).unwrap();
    assert_eq!(definitions, vec![SymbolId(0), SymbolId(6)]);
    assert!(undefined.is_empty());
}

fn section(unloaded: Option<UnloadedSection<'static>>, flags: u64, data: &'static [u8]) -> InputSection<'static> {
    InputSection { unloaded, section_flags: SectionFlags(flags), ty: SectionType(SHT_PROGBITS), data }
}

fn custom(name: &'static [u8], merge: bool) -> Option<UnloadedSection<'static>> {
    Some(UnloadedSection {
        part_id: TemporaryPartId::Custom(name, Alignment::new(4).unwrap()),
        is_string_merge: merge,
    })
}

fn built_in(id: OutputSectionId, merge: bool) -> Option<UnloadedSection<'static>> {
    Some(UnloadedSection {
        part_id: TemporaryPartId::BuiltIn(PartId::new(id, Alignment::new(8).unwrap())),
        is_string_merge: merge,
    })
}

fn sections_object(sections: Vec<InputSection<'static>>) -> ParsedInputObject<'static> {
    let mut obj = object(0, 1, 1, false, vec![symbol(b"", LOCAL, 0, 0)]);
    obj.sections = sections;
    obj
}

#[test]
fn sections_are_classified() {
    let obj = sections_object(vec![
        section(None, 0, b""),
        section(built_in(output_section_id::text(), false), SHF_ALLOC, b""),
        section(built_in(output_section_id::init_array(), false), SHF_ALLOC, b""),
        section(custom(b"mine", false), SHF_ALLOC, b""),
        section(custom(b"kept", false), SHF_ALLOC | SHF_GNU_RETAIN, b""),
        section(custom(b".debug_info", false), 0, b""),
        section(Some(UnloadedSection { part_id: TemporaryPartId::EhFrameData, is_string_merge: false }), 0, b""),
        section(built_in(output_section_id::rodata(), true), SHF_MERGE | SHF_STRINGS, b"a\0b\0"),
        section(custom(b".debug_str", true), SHF_MERGE | SHF_STRINGS, b"x\0"),
    ]);
    let mut custom_sections = Vec::new();
    let mut merge_strings = Vec::new();
    let slots = resolve_sections(&obj, &mut custom_sections, &mut merge_strings, &args()).unwrap();
    assert_eq!(slots.len(), 9);
    assert!(matches!(slots[0], SectionSlot::Discard));
    assert!(matches!(slots[1], SectionSlot::Unloaded(p) if p.section == output_section_id::text()));
    assert!(matches!(slots[2], SectionSlot::MustLoad(p) if p.section == output_section_id::init_array()));
    assert!(matches!(slots[3], SectionSlot::Unloaded(p) if p == PartId::custom_placeholder()));
    assert!(matches!(slots[4], SectionSlot::MustLoad(p) if p == PartId::custom_placeholder()));
    assert!(matches!(slots[5], SectionSlot::UnloadedDebugInfo(p) if p == PartId::custom_placeholder()));
    assert!(matches!(slots[6], SectionSlot::EhFrameData(6)));
    assert!(
        matches!(slots[7], SectionSlot::MergeStrings(m) if m.part_id.section == output_section_id::rodata() && m.section_data == b"a\0b\0")
    );
    assert!(matches!(slots[8], SectionSlot::MergeStrings(m) if m.part_id == PartId::custom_placeholder()));
    let names: Vec<&[u8]> = custom_sections.iter().map(|c| c.name).collect();
    assert_eq!(names, vec![&b"mine"[..], b"kept", b".debug_info", b".debug_str"]);
    let indices: Vec<usize> = custom_sections.iter().map(|c| c.index).collect();
    assert_eq!(indices, vec![3, 4, 5, 8]);
    assert_eq!(merge_strings.len(), 2);
    assert_eq!(merge_strings[0].section_index, 7);
    assert_eq!(merge_strings[1].section_index, 8);
    assert!(!slots[0].is_loaded());
    assert!(!slots[1].is_loaded());
    assert!(slots[2].is_loaded());
    assert!(slots[6].is_loaded());
}

#[test]
fn debug_sections_are_stripped_on_request() {
    let obj = sections_object(vec![
        section(custom(b".debug_info", false), 0, b""),
        section(custom(b".debug", false), 0, b""),
    ]);
    let mut custom_sections = Vec::new();
    let mut merge_strings = Vec::new();
    let stripping = Args { strip_debug: true, ..args() };
    let slots = resolve_sections(&obj, &mut custom_sections, &mut merge_strings, &stripping).unwrap();
    assert!(matches!(slots[0], SectionSlot::Discard));
    assert!(matches!(slots[1], SectionSlot::Unloaded(_)));
    assert_eq!(custom_sections.len(), 1);
    assert_eq!(custom_sections[0].name, b".debug");
}

#[test]
fn unterminated_strings_fail_classification() {
    let obj = sections_object(vec![
        section(custom(b"first", false), 0, b""),
        section(built_in(output_section_id::rodata(), true), SHF_MERGE | SHF_STRINGS, b"a\0b"),
        section(custom(b"later", false), 0, b""),
    ]);
    let mut custom_sections = Vec::new();
    let mut merge_strings = Vec::new();
    let r = resolve_sections(&obj, &mut custom_sections, &mut merge_strings, &args());
    assert_eq!(r.unwrap_err(), Error::UnterminatedString);
    assert_eq!(custom_sections.len(), 1);
    assert!(merge_strings.is_empty());
}

#[test]
fn set_part_id_keeps_the_state() {
    let part = PartId::new(OutputSectionId(19), Alignment::new(4).unwrap());
    let mut slot = SectionSlot::MustLoad(PartId::custom_placeholder());
    slot.set_part_id(part);
    assert!(matches!(slot, SectionSlot::MustLoad(p) if p == part));
    let mut slot = SectionSlot::UnloadedDebugInfo(PartId::custom_placeholder());
    slot.set_part_id(part);
    assert!(matches!(slot, SectionSlot::UnloadedDebugInfo(p) if p == part));
    assert_eq!(part.output_section_id(), OutputSectionId(19));
}

#[test]
fn process_object_loads_an_object() {
    let groups = sample_groups();
    let db = sample_db();
    let mut definitions = vec![SymbolId(0); 4];
    let mut requested = Vec::new();
    let mut undefined = Vec::new();
    let mut loaded_objects = Vec::new();
    process_object(
        FileId::new(0, 1),
        &mut definitions,
        &groups,
        &db,
        &mut requested,
        &mut undefined,
        &mut loaded_objects,
    )
    .unwrap();
    assert_eq!(loaded_objects.len(), 1);
    assert_eq!(loaded_objects[0].file_id, FileId::new(0, 1));
    assert!(loaded_objects[0].non_dynamic.is_some());
    assert_eq!(requested, vec![FileId::new(1, 0)]);
    let mut none = Vec::new();
    process_object(FileId::new(0, 0), &mut none, &groups, &db, &mut requested, &mut undefined, &mut loaded_objects)
        .unwrap();
    assert_eq!(loaded_objects.len(), 1);
}

#[test]
fn archive_members_are_loaded_on_demand() {
    let groups = sample_groups();
    let mut db = sample_db();
    assert!(inputs_are_valid(&groups, &db));
    let (resolved, undefined, prelude) = resolve_symbols_in_files(&groups, &mut db).unwrap();
    assert_eq!(prelude.symbol_definitions, vec![InternalSymDefInfo::Undefined]);
    assert!(matches!(resolved[0].files[0], ResolvedFile::NotLoaded(_)));
    assert!(matches!(&resolved[0].files[1], ResolvedFile::Object(o) if o.file_id == FileId::new(0, 1)));
    assert!(matches!(&resolved[1].files[0], ResolvedFile::Object(o) if o.file_id == FileId::new(1, 0)));
    assert!(matches!(&resolved[1].files[1], ResolvedFile::NotLoaded(n) if n.symbol_id_range.start_symbol_id == SymbolId(7)));
    assert!(matches!(resolved[1].files[2], ResolvedFile::NotLoaded(_)));
    assert!(
        matches!(resolved[2].files[0], ResolvedFile::Epilogue(e) if e.start_symbol_id == SymbolId(11) && e.file_id == FileId::uninitialised())
    );
    let expected: Vec<SymbolId> = [0u32, 0, 6, 8, 0, 0, 6, 0, 8, 0, 10].iter().map(|i| SymbolId(*i)).collect();
    assert_eq!(db.symbol_definitions, expected);
    assert_eq!(undefined.len(), 2);
    assert_eq!(undefined[0].symbol_id, SymbolId(3));
    assert_eq!(undefined[1].symbol_id, SymbolId(4));
    assert_eq!(resolved[0].files[1].describe(), "<object>");
    assert_eq!(resolved[1].files[2].describe(), "<not loaded>");
}

#[test]
fn requests_follow_from_member_to_member() {
    let mut groups = sample_groups();
    if let ParsedInput::Object(b) = &mut groups[1].files[0] {
        b.symbols.push(symbol(b"baz", GLOBAL, 0, 0));
        b.symbol_id_range = SymbolIdRange::input(SymbolId(5), 3);
    }
    if let ParsedInput::Object(c) = &mut groups[1].files[1] {
        c.symbol_id_range = SymbolIdRange::input(SymbolId(8), 2);
    }
    if let ParsedInput::Object(d) = &mut groups[1].files[2] {
        d.symbol_id_range = SymbolIdRange::input(SymbolId(10), 2);
    }
    let mut db = sample_db();
    db.global_names = vec![name(b"foo", 6), name(b"bar", 9), name(b"baz", 11)];
    db.symbol_file_ids = vec![
        FileId::new(0, 0),
        FileId::new(0, 1),
        FileId::new(0, 1),
        FileId::new(0, 1),
        FileId::new(0, 1),
        FileId::new(1, 0),
        FileId::new(1, 0),
        FileId::new(1, 0),
        FileId::new(1, 1),
        FileId::new(1, 1),
        FileId::new(1, 2),
        FileId::new(1, 2),
    ];
    db.symbol_definitions = [0u32, 0, 0, 0, 0, 0, 6, 0, 0, 9, 0, 11].iter().map(|i| SymbolId(*i)).collect();
    db.symbol_value_flags = vec![ValueFlags::from_bits(ADDRESS); 12];
    db.alternative_definitions = vec![SymbolId(0); 12];
    assert!(inputs_are_valid(&groups, &db));
    let (resolved, _, _) = resolve_symbols_in_files(&groups, &mut db).unwrap();
    assert!(matches!(resolved[1].files[0], ResolvedFile::Object(_)));
    assert!(matches!(resolved[1].files[1], ResolvedFile::NotLoaded(_)));
    assert!(matches!(resolved[1].files[2], ResolvedFile::Object(_)));
    assert_eq!(db.symbol_definitions[7], SymbolId(11));
}

#[test]
fn a_link_without_objects_fails() {
    let groups = vec![Group {
        files: vec![
            ParsedInput::Prelude(Prelude { symbol_definitions: Vec::new() }),
            ParsedInput::Epilogue(Epilogue { start_symbol_id: SymbolId(1) }),
        ],
    }];
    let mut db = sample_db();
    db.global_names = Vec::new();
    db.symbol_file_ids = vec![FileId::new(0, 0)];
    db.symbol_definitions = vec![SymbolId(0)];
    db.symbol_value_flags = vec![ValueFlags::empty()];
    db.alternative_definitions = vec![SymbolId(0)];
    db.epilogue_file_id = FileId::new(0, 1);
    assert!(inputs_are_valid(&groups, &db));
    let r = resolve_symbols_in_files(&groups, &mut db);
    assert_eq!(r.err(), Some(Error::NoInputFiles));
    assert_eq!(Error::NoInputFiles.message(), "Cannot link with 0 input files");
}

#[test]
fn the_first_error_is_returned() {
    let mut groups = sample_groups();
    if let ParsedInput::Object(a) = &mut groups[0].files[1] {
        a.sections = vec![section(
            built_in(output_section_id::rodata(), true),
            SHF_MERGE | SHF_STRINGS,
            b"no terminator",
        )];
    }
    let mut db = sample_db();
    assert!(inputs_are_valid(&groups, &db));
    let r = resolve_symbols_in_files(&groups, &mut db);
    assert_eq!(r.err(), Some(Error::UnterminatedString));
    assert_eq!(db.symbol_definitions.len(), 11);
    assert_eq!(
        Error::UnterminatedString.message(),
        "String in merge-string section is not null-terminated"
    );
}

#[test]
fn a_file_is_claimed_once() {
    let groups = sample_groups();
    let start = start_resolution(&groups);
    assert_eq!(start.work_queue, vec![FileId::new(0, 1)]);
    assert_eq!(start.num_objects, 4);
    let mut claims = start.claims;
    let mut queue = start.work_queue;
    assert!(!request_file_id(&mut claims, &mut queue, FileId::new(0, 1)));
    assert!(request_file_id(&mut claims, &mut queue, FileId::new(1, 2)));
    assert!(!request_file_id(&mut claims, &mut queue, FileId::new(1, 2)));
    assert!(request_file_id(&mut claims, &mut queue, FileId::new(0, 0)));
    assert_eq!(queue, vec![FileId::new(0, 1), FileId::new(1, 2), FileId::new(0, 0)]);
}

#[test]
fn idle_threads_decide_when_to_stop() {
    assert_eq!(when_queue_empty(true, 4), WhenEmpty::Park);
    assert_eq!(when_queue_empty(false, 4), WhenEmpty::Register);
    assert_eq!(when_queue_empty(false, 1), WhenEmpty::Exit);
    assert_eq!(when_registered(true), WhenRegistered::LookAgain);
    assert_eq!(when_registered(false), WhenRegistered::Finish);
    assert_eq!(idle_capacity(1), None);
    assert_eq!(idle_capacity(8), Some(7));
}

fn undefined(name: &'static [u8], symbol_id: u32, ignore_if_loaded: Option<FileId>) -> UndefinedSymbol<'static> {
    UndefinedSymbol { ignore_if_loaded, name: SymbolName::prehashed(name), symbol_id: SymbolId(symbol_id) }
}

#[test]
fn records_are_sorted_by_symbol() {
    let sorted = sort_by_symbol(vec![
        undefined(b"c", 9, None),
        undefined(b"a", 3, None),
        undefined(b"b", 3, Some(FileId::new(1, 1))),
        undefined(b"d", 1, None),
    ]);
    let names: Vec<&[u8]> = sorted.iter().map(|u| u.name.value.bytes).collect();
    assert_eq!(names, vec![&b"d"[..], b"a", b"b", b"c"]);
}

#[test]
fn start_and_stop_symbols_are_synthesised() {
    let output_sections = OutputSections::for_testing();
    let data_section = output_sections.custom_name_to_id(b"data").unwrap();
    assert_eq!(data_section, OutputSectionId(20));
    let mut db = sample_db();
    let mut defs = Vec::new();
    let id = allocate_start_stop_symbol_id(SymbolName::prehashed(b"__start_data"), &mut db, &mut defs, &output_sections);
    assert_eq!(id, Some(SymbolId(11)));
    assert_eq!(defs, vec![InternalSymDefInfo::SectionStart(data_section)]);
    assert_eq!(db.symbol_definitions.len(), 12);
    assert_eq!(db.symbol_definitions[11], SymbolId(11));
    assert_eq!(db.symbol_file_ids[11], FileId::new(2, 0));
    assert_eq!(db.symbol_value_flags[11].bits(), ADDRESS | CAN_BYPASS_GOT);
    assert_eq!(db.start_stop_symbol_names[0].value.bytes, b"__start_data");
    let id = allocate_start_stop_symbol_id(SymbolName::prehashed(b"__stop_data"), &mut db, &mut defs, &output_sections);
    assert_eq!(id, Some(SymbolId(12)));
    assert_eq!(defs[1], InternalSymDefInfo::SectionEnd(data_section));
    let id = allocate_start_stop_symbol_id(SymbolName::prehashed(b"__start_unknown"), &mut db, &mut defs, &output_sections);
    assert_eq!(id, None);
    let id = allocate_start_stop_symbol_id(SymbolName::prehashed(b"data"), &mut db, &mut defs, &output_sections);
    assert_eq!(id, None);
    let id = allocate_start_stop_symbol_id(SymbolName::prehashed(b"__start_"), &mut db, &mut defs, &output_sections);
    assert_eq!(id, None);
    assert_eq!(defs.len(), 2);
    assert_eq!(db.symbol_definitions.len(), 13);
}

#[test]
fn undefined_symbols_are_canonicalised() {
    let groups = sample_groups();
    let output_sections = OutputSections::for_testing();
    let mut db = sample_db();
    let resolved = vec![
        ResolvedGroup { files: vec![not_loaded(&groups, 0, 0), loaded(&groups, 0, 1)] },
        ResolvedGroup {
            files: vec![loaded(&groups, 1, 0), not_loaded(&groups, 1, 1), not_loaded(&groups, 1, 2)],
        },
    ];
    let records = vec![
        undefined(b"__start_unknown", 10, None),
        undefined(b"__start_bss", 9, None),
        undefined(b"missing", 4, None),
        undefined(b"foo", 2, Some(FileId::new(1, 0))),
        undefined(b"bar", 3, Some(FileId::new(1, 1))),
        undefined(b"missing", 7, None),
        undefined(b"__start_bss", 5, None),
        undefined(b"__stop_bss", 6, None),
    ];
    let defs = canonicalise_undefined_symbols(records, &output_sections, &resolved, &mut db).unwrap();
    let bss = output_sections.custom_name_to_id(b"bss").unwrap();
    assert_eq!(defs, vec![InternalSymDefInfo::SectionStart(bss), InternalSymDefInfo::SectionEnd(bss)]);
    assert_eq!(db.symbol_definitions.len(), 13);
    assert_eq!(db.symbol_definitions[2], SymbolId(0));
    assert_eq!(db.symbol_definitions[3], SymbolId(3));
    assert_eq!(db.symbol_definitions[4], SymbolId(4));
    assert_eq!(db.symbol_definitions[7], SymbolId(4));
    assert_eq!(db.symbol_definitions[5], SymbolId(11));
    assert_eq!(db.symbol_definitions[9], SymbolId(11));
    assert_eq!(db.symbol_definitions[6], SymbolId(12));
    assert_eq!(db.symbol_definitions[10], SymbolId(10));
    assert_eq!(db.symbol_definitions[11], SymbolId(11));
}

#[test]
fn records_are_ignored_where_the_file_was_loaded() {
    let groups = sample_groups();
    let resolved = vec![
        ResolvedGroup { files: vec![not_loaded(&groups, 0, 0), loaded(&groups, 0, 1)] },
        ResolvedGroup {
            files: vec![loaded(&groups, 1, 0), not_loaded(&groups, 1, 1), not_loaded(&groups, 1, 2)],
        },
    ];
    assert!(undefined(b"foo", 2, Some(FileId::new(1, 0))).is_ignored(&resolved));
    assert!(!undefined(b"bar", 3, Some(FileId::new(1, 1))).is_ignored(&resolved));
    assert!(!undefined(b"x", 3, None).is_ignored(&resolved));
}

#[test]
fn value_flags_merge() {
    let mut flags = ValueFlags::from_bits(ADDRESS | FUNCTION);
    flags.merge(ValueFlags::from_bits(DYNAMIC | CAN_BYPASS_GOT));
    assert_eq!(flags.bits(), ADDRESS | FUNCTION | CAN_BYPASS_GOT);
    let mut flags = ValueFlags::from_bits(ADDRESS);
    flags.merge(ValueFlags::from_bits(DYNAMIC | FUNCTION));
    assert_eq!(flags.bits(), ADDRESS);
    assert!(ValueFlags::from_bits(ADDRESS | DYNAMIC).contains(DYNAMIC));
    assert!(!ValueFlags::empty().contains(DYNAMIC));
}

#[test]
fn symbol_ranges_convert_numbers() {
    let range = SymbolIdRange::input(SymbolId(10), 5);
    assert_eq!(range.len(), 5);
    assert_eq!(range.input_to_id(3), SymbolId(13));
    assert_eq!(range.to_input(SymbolId(14)), 4);
    assert!(SymbolId::undefined().is_undefined());
    assert!(!SymbolId(1).is_undefined());
    assert_eq!(SymbolId::from_usize(7).as_usize(), 7);
    assert_eq!(FileId::prelude(), FileId::new(0, 0));
    assert_eq!(FileId::new(2, 3).group(), 2);
    assert_eq!(FileId::new(2, 3).file(), 3);
}

#[test]
fn global_names_are_looked_up_by_bytes() {
    let db = sample_db();
    assert_eq!(db.lookup_global(&SymbolName::prehashed(b"bar")), Some(SymbolId(8)));
    assert_eq!(db.lookup_global(&SymbolName::prehashed(b"ba")), None);
    assert_eq!(db.file_id_for_symbol(SymbolId(8)), FileId::new(1, 1));
    assert_eq!(db.symbol_value_flags(SymbolId(8)).bits(), ADDRESS);
}
