//! Symbol and section resolution for an ELF linker: which definition of each
//! global symbol wins, which input sections reach the output and where, and
//! how mergeable strings are deduplicated.

pub mod alignment;
pub mod elf;
pub mod output_section_id;
pub mod part_id;
pub mod section_slot;
pub mod output_section_map;
pub mod output_section_part_map;
pub mod error;
pub mod output_sections_builder;
pub mod hash;
pub mod merge_strings;
pub mod validation;
pub mod value_flags;
pub mod symbol_db;
pub mod input;
pub mod resolution;
pub mod classifier;
pub mod undefined_symbols;
pub mod section_ids;
pub mod merged_strings;
pub mod driver;
pub mod outputs;
