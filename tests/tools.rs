use kos_linker::analysis::InputObject;
use kos_linker::libraries::{distinct_libraries, library_candidates, library_file, parse_libraries, select_library, FoundLibraryFile};
use kos_linker::link::link_objects;
use kos_linker::object_file::{
    ElfObjectFile, ElfRelocation, ElfRelocationKind, ElfRelocationTarget, ElfSection, ElfSymbol, ElfSymbolSection,
};
use kos_linker::options::{ends_with, read_options, starts_with};
use kos_linker::symbol_map::{format_map_entry, generate_symbol_map};

fn strings(v: &[&str]) -> Vec<String> {
    v.iter().map(|s| s.to_string()).collect()
}

#[test]
fn options_sort_arguments() {
    let args = strings(&["-L", "libs", "-L", "gone", "-l  core ", "main.o", "missing.o", "std.rlib", "notes.txt"]);
    let exists = vec![false, true, false, false, false, true, false, true, true];
    let options = read_options(&args, &exists);
    assert_eq!(options.library_paths, strings(&["libs"]));
    assert_eq!(options.libraries, strings(&["core"]));
    assert_eq!(options.objects, strings(&["main.o"]));
    assert_eq!(options.archives, strings(&["std.rlib"]));
    assert_eq!(options.output, "kos_app");
}

#[test]
fn options_dash_big_l_at_the_end() {
    let options = read_options(&strings(&["-L"]), &vec![false]);
    assert!(options.library_paths.is_empty());
}

#[test]
fn prefixes_and_suffixes() {
    assert!(starts_with("-lfoo", "-l"));
    assert!(!starts_with("-", "-l"));
    assert!(ends_with("a.rlib", ".rlib"));
    assert!(!ends_with("a.o.txt", ".o"));
}

#[test]
fn library_candidates_in_search_order() {
    assert_eq!(library_file("m", true), "libm.rlib");
    let c = library_candidates(&strings(&["a", "b/"]), "m");
    let paths: Vec<&str> = c.iter().map(|(p, _)| p.as_str()).collect();
    assert_eq!(paths, vec!["a/libm.o", "a/libm.rlib", "b/libm.o", "b/libm.rlib"]);
    assert_eq!(c.iter().map(|(_, a)| *a).collect::<Vec<_>>(), vec![false, true, false, true]);
}

#[test]
fn archive_wins_and_later_directory_wins() {
    let c = library_candidates(&strings(&["a", "b"]), "m");
    match select_library(&c, &vec![true, true, false, false]) {
        FoundLibraryFile::Archive(p) => assert_eq!(p, "a/libm.rlib"),
        _ => panic!("the archive wins"),
    }
    match select_library(&c, &vec![true, true, true, false]) {
        FoundLibraryFile::Object(p) => assert_eq!(p, "b/libm.o"),
        _ => panic!("the later directory wins"),
    }
    assert!(matches!(select_library(&c, &vec![false; 4]), FoundLibraryFile::NotFound));
}

#[test]
fn found_libraries_join_the_inputs() {
    let mut options = read_options(&strings(&["x.o"]), &vec![true]);
    let found = vec![
        FoundLibraryFile::Archive("l/liba.rlib".to_string()),
        FoundLibraryFile::NotFound,
        FoundLibraryFile::Object("l/libb.o".to_string()),
    ];
    parse_libraries(&mut options, &found);
    assert_eq!(options.objects, strings(&["x.o", "l/libb.o"]));
    assert_eq!(options.archives, strings(&["l/liba.rlib"]));
}

#[test]
fn map_entry_text() {
    assert_eq!(
        format_map_entry(true, 0x24, 5, "main", "_ZN4main17h0123456789abcdefE"),
        "[c] 00000024 - 00000028 (5):\n- main (_ZN4main17h0123456789abcdefE)\n\n"
    );
    assert_eq!(format_map_entry(false, 0x1_0000_0000, 1, "d", "d"), "[d] 100000000 - 100000000 (1):\n- d (d)\n\n");
}

fn section(index: usize, data: Vec<u8>, relocations: Vec<ElfRelocation>) -> ElfSection {
    ElfSection { index, name: ".text".to_string(), flags: 6, size: data.len() as u64, data, alignment: 1, relocations }
}

fn global(index: usize, name: &str, section: usize) -> ElfSymbol {
    ElfSymbol { index, name: Some(name.to_string()), st_info: 0x12, section: ElfSymbolSection::Section(section), offset: 0 }
}

#[test]
fn symbol_map_demangles_rust_names() {
    let mangled = "_ZN4core3fmt5write17h0123456789abcdefE";
    let call = ElfRelocation { target: ElfRelocationTarget::Symbol(2), size: 32, offset: 1, kind: ElfRelocationKind::Relative };
    let elf = ElfObjectFile {
        filename: "a.o".to_string(),
        sections: vec![section(1, vec![0xE8, 0, 0, 0, 0], vec![call]), section(2, vec![0xC3], vec![])],
        symbols: vec![global(1, "_start", 1), global(2, mangled, 2)],
    };
    let out = link_objects(&vec![InputObject { archive: None, elf }], "kos_app").unwrap();
    assert_eq!(
        generate_symbol_map(&out),
        format!(
            "[c] 00000024 - 00000028 (5):\n- _start (_start)\n\n[c] 00000029 - 00000029 (1):\n- core::fmt::write ({})\n\n",
            mangled
        )
    );
}

#[test]
fn repeated_libraries_are_searched_once() {
    assert_eq!(distinct_libraries(&strings(&["a", "b", "a", "c", "b"])), strings(&["a", "b", "c"]));
}
