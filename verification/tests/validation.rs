use linker_resolution::alignment::Alignment;
use linker_resolution::elf::{SectionFlags, SectionType};
use linker_resolution::input::{
    Epilogue, Group, InputSymbol, InternalSymDefInfo, ParsedInput, ParsedInputObject, Prelude,
};
use linker_resolution::part_id::{CustomSectionDetails, PartId};
use linker_resolution::resolution::{
    NonDynamicResolved, NotLoaded, ResolvedEpilogue, ResolvedFile, ResolvedGroup, ResolvedObject,
    UndefinedSymbol,
};
use linker_resolution::section_slot::SectionSlot;
use linker_resolution::symbol_db::{
    Args, FileId, GlobalName, SymbolDb, SymbolId, SymbolIdRange, SymbolName,
};
use linker_resolution::validation::{
    can_be_finished, check_object, file_ids, has_parts_for_records, holds_file, inputs_are_valid,
};
use linker_resolution::value_flags::{ValueFlags, ADDRESS};

fn sym(name: &'static [u8], st_info: u8, st_shndx: u16) -> InputSymbol<'static> {
    InputSymbol { name, st_info, st_other: 0, st_shndx, st_value: 0, st_size: 0 }
}

fn obj(file: usize, start: u32, symbols: Vec<InputSymbol<'static>>) -> ParsedInputObject<'static> {
    ParsedInputObject {
        file_id: FileId::new(0, file),
        symbol_id_range: SymbolIdRange::input(SymbolId(start), symbols.len()),
        dynamic: false,
        optional: false,
        symbols,
        sections: Vec::new(),
    }
}

fn ids(numbers: &[u32]) -> Vec<SymbolId> {
    numbers.iter().map(|i| SymbolId(*i)).collect()
}

/// A prelude, two objects with two symbols each, and an epilogue. The
/// second symbol of each object defines `f`: weakly in the first object,
/// strongly in the second.
fn valid() -> (Vec<Group<'static>>, SymbolDb<'static>) {
    let groups = vec![Group {
        files: vec![
            ParsedInput::Prelude(Prelude { symbol_definitions: vec![InternalSymDefInfo::Undefined] }),
            ParsedInput::Object(obj(1, 1, vec![sym(b"", 0, 0), sym(b"f", 0x22, 1)])),
            ParsedInput::Object(obj(2, 3, vec![sym(b"", 0, 0), sym(b"f", 0x12, 1)])),
            ParsedInput::Epilogue(Epilogue { start_symbol_id: SymbolId(5) }),
        ],
    }];
    let file = |f: usize| FileId::new(0, f);
    let db = SymbolDb {
        args: Args { num_threads: 1, base_address: 0, strip_debug: false },
        global_names: vec![GlobalName { name: SymbolName::prehashed(b"f"), symbol_id: SymbolId(2) }],
        symbol_file_ids: vec![file(0), file(1), file(1), file(2), file(2)],
        symbol_definitions: ids(&[0, 0, 2, 0, 2]),
        symbol_value_flags: vec![ValueFlags::from_bits(ADDRESS); 5],
        alternative_definitions: ids(&[0, 0, 4, 0, 0]),
        symbols_with_alternatives: ids(&[2]),
        start_stop_symbol_names: Vec::new(),
        epilogue_file_id: file(3),
    };
    (groups, db)
}

fn object_at<'a>(groups: &'a mut [Group<'static>], file: usize) -> &'a mut ParsedInputObject<'static> {
    match &mut groups[0].files[file] {
        ParsedInput::Object(o) => o,
        _ => panic!("not an object"),
    }
}

#[test]
fn files_that_fit_their_symbols_are_valid() {
    let (groups, db) = valid();
    assert!(db.check_wf());
    assert!(db.check_definitions());
    assert!(inputs_are_valid(&groups, &db));
}

#[test]
fn every_file_has_a_place() {
    let (groups, _) = valid();
    let places = file_ids(&groups);
    assert_eq!(places, (0..4).map(|f| FileId::new(0, f)).collect::<Vec<_>>());
    assert!(holds_file(&groups, FileId::new(0, 3)));
    assert!(!holds_file(&groups, FileId::new(0, 4)));
    assert!(!holds_file(&groups, FileId::new(1, 0)));
}

#[test]
fn the_first_file_must_hold_the_linkers_symbols() {
    let (mut groups, db) = valid();
    groups[0].files.swap(0, 3);
    assert!(!inputs_are_valid(&groups, &db));
    assert!(!inputs_are_valid(&[], &db));
}

#[test]
fn every_symbol_must_belong_to_a_file() {
    let (groups, mut db) = valid();
    db.symbol_file_ids[4] = FileId::new(0, 4);
    assert!(!inputs_are_valid(&groups, &db));
    let (groups, mut db) = valid();
    db.epilogue_file_id = FileId::new(1, 0);
    assert!(!inputs_are_valid(&groups, &db));
}

#[test]
fn an_object_must_know_its_place() {
    let (mut groups, db) = valid();
    object_at(&mut groups, 2).file_id = FileId::new(0, 1);
    assert!(!inputs_are_valid(&groups, &db));
}

#[test]
fn ranges_of_symbols_must_not_overlap() {
    let (mut groups, db) = valid();
    object_at(&mut groups, 2).symbol_id_range = SymbolIdRange::input(SymbolId(2), 2);
    assert!(!inputs_are_valid(&groups, &db));
    // A file without symbols may start where another starts, not within it.
    let (mut groups, db) = valid();
    object_at(&mut groups, 2).symbols.clear();
    object_at(&mut groups, 2).symbol_id_range = SymbolIdRange::input(SymbolId(1), 0);
    assert!(inputs_are_valid(&groups, &db));
    object_at(&mut groups, 2).symbol_id_range = SymbolIdRange::input(SymbolId(2), 0);
    assert!(!inputs_are_valid(&groups, &db));
}

#[test]
fn ranges_of_symbols_must_lie_within_the_definitions() {
    let (mut groups, db) = valid();
    object_at(&mut groups, 2).symbol_id_range = SymbolIdRange::input(SymbolId(4), 2);
    assert!(!inputs_are_valid(&groups, &db));
    let (groups, db) = valid();
    let ParsedInput::Object(second) = &groups[0].files[2] else { panic!() };
    assert!(check_object(second, FileId::new(0, 2), &db.symbol_definitions));
    assert!(!check_object(second, FileId::new(0, 2), &ids(&[0, 0, 2, 0])));
}

#[test]
fn a_symbol_table_must_fit_its_range() {
    let (mut groups, db) = valid();
    object_at(&mut groups, 2).symbols.push(sym(b"g", 0x10, 0));
    assert!(!inputs_are_valid(&groups, &db));
}

#[test]
fn a_global_definition_must_be_defined() {
    let (groups, mut db) = valid();
    db.symbol_definitions[4] = SymbolId(0);
    assert!(!inputs_are_valid(&groups, &db));
    // A local symbol and a reference may be undefined in the table.
    let (mut groups, mut db) = valid();
    db.symbol_definitions[4] = SymbolId(0);
    object_at(&mut groups, 2).symbols[1] = sym(b"f", 0x02, 1);
    assert!(inputs_are_valid(&groups, &db));
    object_at(&mut groups, 2).symbols[1] = sym(b"f", 0x10, 0);
    assert!(inputs_are_valid(&groups, &db));
}

#[test]
fn earlier_definitions_must_end() {
    let (groups, mut db) = valid();
    db.alternative_definitions = ids(&[0, 0, 4, 0, 2]);
    assert!(!db.check_wf());
    assert!(!inputs_are_valid(&groups, &db));
    db.alternative_definitions = ids(&[0, 0, 4, 0, 1]);
    assert!(db.check_wf());
    db.alternative_definitions = ids(&[0, 0, 5, 0, 0]);
    assert!(!db.check_wf());
    db.alternative_definitions = ids(&[0, 0, 4, 0]);
    assert!(!db.check_wf());
}

#[test]
fn names_and_definitions_must_be_symbols() {
    let (groups, mut db) = valid();
    db.global_names[0].symbol_id = SymbolId(5);
    assert!(!db.check_wf());
    let (_, mut db) = valid();
    db.symbols_with_alternatives = ids(&[7]);
    assert!(!db.check_wf());
    let (_, mut db) = valid();
    db.symbol_definitions[1] = SymbolId(5);
    assert!(!db.check_definitions());
    let taken = db.take_definitions();
    assert!(!db.check_definitions());
    assert!(!inputs_are_valid(&groups, &db));
    db.restore_definitions(taken);
    db.symbol_definitions[1] = SymbolId(0);
    assert!(inputs_are_valid(&groups, &db));
}

fn record(index: usize) -> CustomSectionDetails<'static> {
    CustomSectionDetails {
        name: b"mine",
        alignment: Alignment::new(4).unwrap(),
        section_flags: SectionFlags(0),
        ty: SectionType(1),
        index,
    }
}

fn resolved<'a>(
    groups: &'a [Group<'static>],
    slot: SectionSlot<'static>,
    index: usize,
) -> Vec<ResolvedGroup<'a>> {
    let ParsedInput::Object(first) = &groups[0].files[1] else { panic!() };
    let ParsedInput::Object(second) = &groups[0].files[2] else { panic!() };
    vec![ResolvedGroup {
        files: vec![
            ResolvedFile::NotLoaded(NotLoaded { symbol_id_range: SymbolIdRange::prelude(0) }),
            ResolvedFile::Object(ResolvedObject {
                object: first,
                file_id: first.file_id,
                symbol_id_range: first.symbol_id_range,
                non_dynamic: Some(NonDynamicResolved {
                    sections: vec![slot],
                    merge_strings_sections: Vec::new(),
                    custom_sections: vec![record(index)],
                }),
            }),
            ResolvedFile::NotLoaded(NotLoaded { symbol_id_range: second.symbol_id_range }),
            ResolvedFile::Epilogue(ResolvedEpilogue {
                file_id: FileId::uninitialised(),
                start_symbol_id: SymbolId(5),
            }),
        ],
    }]
}

#[test]
fn records_of_custom_sections_need_a_slot_with_a_part() {
    let (groups, db) = valid();
    let with_part = resolved(&groups, SectionSlot::Unloaded(PartId::custom_placeholder()), 0);
    assert!(has_parts_for_records(&with_part[0].files[1]));
    assert!(has_parts_for_records(&with_part[0].files[0]));
    assert!(can_be_finished(&db, &with_part, &Vec::new()));

    let discarded = resolved(&groups, SectionSlot::Discard, 0);
    assert!(!has_parts_for_records(&discarded[0].files[1]));
    assert!(!can_be_finished(&db, &discarded, &Vec::new()));
    let frame = resolved(&groups, SectionSlot::EhFrameData(0), 0);
    assert!(!has_parts_for_records(&frame[0].files[1]));

    // A record that names no section of the file asks for nothing.
    let beyond = resolved(&groups, SectionSlot::Discard, 1);
    assert!(has_parts_for_records(&beyond[0].files[1]));
}

#[test]
fn references_must_name_symbols_and_files() {
    let (groups, db) = valid();
    let files = resolved(&groups, SectionSlot::Unloaded(PartId::custom_placeholder()), 0);
    let reference = |symbol_id: u32, file: Option<usize>| UndefinedSymbol {
        ignore_if_loaded: file.map(|f| FileId::new(0, f)),
        name: SymbolName::prehashed(b"g"),
        symbol_id: SymbolId(symbol_id),
    };
    assert!(can_be_finished(&db, &files, &vec![reference(1, None), reference(4, Some(2))]));
    assert!(!can_be_finished(&db, &files, &vec![reference(5, None)]));
    assert!(!can_be_finished(&db, &files, &vec![reference(1, Some(4))]));
    assert!(!can_be_finished(&db, &files[..0], &Vec::new()));
}
