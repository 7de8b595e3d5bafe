use kos_linker::analysis::InputObject;
use kos_linker::error::LinkError;
use kos_linker::link::{link_objects, LinkOutput};
use kos_linker::object_file::{
    ElfObjectFile, ElfRelocation, ElfRelocationKind, ElfRelocationTarget, ElfSection, ElfSymbol,
    ElfSymbolSection,
};
use kos_linker::symbol_table::SymbolTag;

const GLOBAL_FUNC: u8 = 0x12;
const GLOBAL_OBJECT: u8 = 0x11;
const GLOBAL_NOTYPE: u8 = 0x10;
const WEAK_OBJECT: u8 = 0x21;
const CODE_FLAGS: u64 = 0x6;
const DATA_FLAGS: u64 = 0x3;

fn section(index: usize, name: &str, flags: u64, data: Vec<u8>, relocations: Vec<ElfRelocation>) -> ElfSection {
    ElfSection {
        index,
        name: name.to_string(),
        flags,
        size: data.len() as u64,
        data,
        alignment: 1,
        relocations,
    }
}

fn symbol(index: usize, name: &str, st_info: u8, section: ElfSymbolSection) -> ElfSymbol {
    ElfSymbol { index, name: Some(name.to_string()), st_info, section, offset: 0 }
}

fn relocation(symbol: usize, offset: u64, kind: ElfRelocationKind) -> ElfRelocation {
    ElfRelocation { target: ElfRelocationTarget::Symbol(symbol), size: 32, offset, kind }
}

fn input(name: &str, sections: Vec<ElfSection>, symbols: Vec<ElfSymbol>) -> InputObject {
    InputObject {
        archive: None,
        elf: ElfObjectFile { filename: name.to_string(), sections, symbols },
    }
}

fn word(image: &[u8], at: usize) -> u32 {
    u32::from_le_bytes([image[at], image[at + 1], image[at + 2], image[at + 3]])
}

fn placed(map: &kos_linker::placement::PlacementMap, tag: &str) -> Option<usize> {
    map.position(&SymbolTag(tag.to_string())).map(|i| map.entry(i).offset)
}

fn link(objects: Vec<InputObject>) -> Result<LinkOutput, LinkError> {
    link_objects(&objects, "kos_app")
}

#[test]
fn hello_world() {
    let code = vec![0xB8, 0x01, 0x00, 0x00, 0x00];
    let a = input(
        "a.o",
        vec![section(1, ".text", CODE_FLAGS, code.clone(), vec![])],
        vec![symbol(1, "_start", GLOBAL_FUNC, ElfSymbolSection::Section(1))],
    );
    let out = link(vec![a]).unwrap();
    let image = out.application.image();
    assert_eq!(out.code_base, 36);
    assert_eq!(&image[36..41], &code[..]);
    assert_eq!(word(image, 12), 36);
    assert_eq!(word(image, 16), 41);
    assert_eq!(&image[0..8], b"MENUET01");
    assert_eq!(word(image, 8), 1);
}

#[test]
fn cross_section_absolute() {
    let code = vec![0xB8, 0, 0, 0, 0, 0x90, 0x90, 0x90, 0x90, 0xC3];
    let a = input(
        "a.o",
        vec![section(1, ".text", CODE_FLAGS, code.clone(), vec![relocation(2, 1, ElfRelocationKind::Absolute)])],
        vec![
            symbol(1, "_start", GLOBAL_FUNC, ElfSymbolSection::Section(1)),
            symbol(2, "msg", GLOBAL_NOTYPE, ElfSymbolSection::Undefined),
        ],
    );
    let b = input(
        "b.o",
        vec![section(1, ".data", DATA_FLAGS, b"Hi\0".to_vec(), vec![])],
        vec![symbol(1, "msg", GLOBAL_OBJECT, ElfSymbolSection::Section(1))],
    );
    let out = link(vec![a, b]).unwrap();
    let image = out.application.image();
    assert_eq!(out.data_base, 48 + 4096);
    assert_eq!(image[36], 0xB8);
    assert_eq!(word(image, 37), out.data_base as u32);
    assert_eq!(&image[out.data_base..out.data_base + 3], b"Hi\0");
    assert_eq!(word(image, 24), out.data_base as u32);
    assert_eq!(word(image, 20), (out.data_base + 3) as u32);
}

#[test]
fn pc_relative_call() {
    let a = input(
        "a.o",
        vec![
            section(1, ".text", CODE_FLAGS, vec![0xE8, 0, 0, 0, 0], vec![relocation(2, 1, ElfRelocationKind::Relative)]),
            section(2, ".text.f", CODE_FLAGS, vec![0xC3], vec![]),
        ],
        vec![
            symbol(1, "_start", GLOBAL_FUNC, ElfSymbolSection::Section(1)),
            symbol(2, "f", GLOBAL_FUNC, ElfSymbolSection::Section(2)),
        ],
    );
    let out = link(vec![a]).unwrap();
    let image = out.application.image();
    assert_eq!(placed(&out.code_placement, "f"), Some(5));
    assert_eq!(&image[37..41], &[0, 0, 0, 0]);
    assert_eq!(image[41], 0xC3);
}

#[test]
fn plt_relative_is_pc_relative() {
    let a = input(
        "a.o",
        vec![
            section(1, ".text", CODE_FLAGS, vec![0xE8, 0, 0, 0, 0, 0x90], vec![relocation(2, 1, ElfRelocationKind::PltRelative)]),
            section(2, ".text.f", CODE_FLAGS, vec![0xC3], vec![]),
        ],
        vec![
            symbol(1, "_start", GLOBAL_FUNC, ElfSymbolSection::Section(1)),
            symbol(2, "f", GLOBAL_FUNC, ElfSymbolSection::Section(2)),
        ],
    );
    let out = link(vec![a]).unwrap();
    let image = out.application.image();
    assert_eq!(word(image, 37), 1);
}

#[test]
fn weak_override() {
    let start = input(
        "start.o",
        vec![section(1, ".text", CODE_FLAGS, vec![0xA1, 0, 0, 0, 0], vec![relocation(2, 1, ElfRelocationKind::Absolute)])],
        vec![
            symbol(1, "_start", GLOBAL_FUNC, ElfSymbolSection::Section(1)),
            symbol(2, "g", GLOBAL_NOTYPE, ElfSymbolSection::Undefined),
        ],
    );
    let a = input(
        "a.o",
        vec![section(1, ".data.g", DATA_FLAGS, vec![0x41], vec![])],
        vec![symbol(1, "g", WEAK_OBJECT, ElfSymbolSection::Section(1))],
    );
    let b = input(
        "b.o",
        vec![section(1, ".data.g", DATA_FLAGS, vec![0x42], vec![])],
        vec![symbol(1, "g", GLOBAL_OBJECT, ElfSymbolSection::Section(1))],
    );
    let out = link(vec![start, a, b]).unwrap();
    let image = out.application.image();
    let g = placed(&out.data_placement, "g").unwrap();
    assert_eq!(image[out.data_base + g], 0x42);
    assert_eq!(word(image, 37), (out.data_base + g) as u32);
    assert_eq!(image.len(), out.data_base + 1);
}

#[test]
fn multiple_definition() {
    let make = |name: &str| {
        input(
            name,
            vec![section(1, ".text", CODE_FLAGS, vec![0xC3], vec![])],
            vec![symbol(1, "dup", GLOBAL_FUNC, ElfSymbolSection::Section(1))],
        )
    };
    match link(vec![make("a.o"), make("b.o")]) {
        Err(LinkError::MultipleDefinition { tag }) => assert_eq!(tag, "dup"),
        _ => panic!("expected a multiple definition"),
    }
}

#[test]
fn unreachable_pruned() {
    let a = input(
        "a.o",
        vec![
            section(1, ".text._start", CODE_FLAGS, vec![], vec![]),
            section(2, ".text.dead_fn", CODE_FLAGS, vec![0x90; 1024], vec![]),
        ],
        vec![
            symbol(1, "_start", GLOBAL_FUNC, ElfSymbolSection::Section(1)),
            symbol(2, "dead_fn", GLOBAL_FUNC, ElfSymbolSection::Section(2)),
        ],
    );
    let out = link(vec![a]).unwrap();
    assert_eq!(out.code_placement.len(), 1);
    assert_eq!(placed(&out.code_placement, "dead_fn"), None);
    assert_eq!(word(out.application.image(), 16), 36);
}

#[test]
fn missing_entry_point() {
    let a = input(
        "a.o",
        vec![section(1, ".text", CODE_FLAGS, vec![0xC3], vec![])],
        vec![symbol(1, "main", GLOBAL_FUNC, ElfSymbolSection::Section(1))],
    );
    assert!(matches!(link(vec![a]), Err(LinkError::MissingEntryPoint)));
}

#[test]
fn dangling_reference() {
    let a = input(
        "a.o",
        vec![section(1, ".text", CODE_FLAGS, vec![0xE8, 0, 0, 0, 0], vec![relocation(2, 1, ElfRelocationKind::Relative)])],
        vec![
            symbol(1, "_start", GLOBAL_FUNC, ElfSymbolSection::Section(1)),
            symbol(2, "nowhere", GLOBAL_NOTYPE, ElfSymbolSection::Undefined),
        ],
    );
    match link(vec![a]) {
        Err(LinkError::DanglingReference { tag }) => assert_eq!(tag, "nowhere"),
        _ => panic!("expected a dangling reference"),
    }
}

#[test]
fn unsupported_relocation_kind() {
    let a = input(
        "a.o",
        vec![section(1, ".text", CODE_FLAGS, vec![0xE8, 0, 0, 0, 0], vec![relocation(1, 1, ElfRelocationKind::Unsupported)])],
        vec![symbol(1, "_start", GLOBAL_FUNC, ElfSymbolSection::Section(1))],
    );
    assert!(matches!(link(vec![a]), Err(LinkError::UnsupportedRelocKind { .. })));
}

#[test]
fn unsupported_relocation_width() {
    let mut r = relocation(1, 1, ElfRelocationKind::Absolute);
    r.size = 16;
    let a = input(
        "a.o",
        vec![section(1, ".text", CODE_FLAGS, vec![0x66, 0, 0, 0, 0], vec![r])],
        vec![symbol(1, "_start", GLOBAL_FUNC, ElfSymbolSection::Section(1))],
    );
    assert!(matches!(link(vec![a]), Err(LinkError::UnsupportedRelocWidth { width: 2, .. })));
}

#[test]
fn unsupported_reference() {
    let a = input(
        "a.o",
        vec![section(1, ".text", CODE_FLAGS, vec![0xE8, 0, 0, 0, 0], vec![relocation(2, 1, ElfRelocationKind::Relative)])],
        vec![
            symbol(1, "_start", GLOBAL_FUNC, ElfSymbolSection::Section(1)),
            symbol(2, "w", 0x20, ElfSymbolSection::Undefined),
        ],
    );
    assert!(matches!(link(vec![a]), Err(LinkError::UnsupportedReference { .. })));
}

#[test]
fn bss_and_alignment() {
    let mut data = section(1, ".bss", DATA_FLAGS, vec![], vec![]);
    data.size = 8;
    let mut aligned = section(2, ".data.x", DATA_FLAGS, vec![7], vec![]);
    aligned.alignment = 16;
    let a = input(
        "a.o",
        vec![
            section(3, ".text", CODE_FLAGS, vec![0xA1, 0, 0, 0, 0, 0xA1, 0, 0, 0, 0], vec![
                relocation(2, 1, ElfRelocationKind::Absolute),
                relocation(3, 6, ElfRelocationKind::Absolute),
            ]),
            data,
            aligned,
        ],
        vec![
            symbol(1, "_start", GLOBAL_FUNC, ElfSymbolSection::Section(3)),
            symbol(2, "buf", GLOBAL_OBJECT, ElfSymbolSection::Section(1)),
            symbol(3, "x", GLOBAL_OBJECT, ElfSymbolSection::Section(2)),
        ],
    );
    let out = link(vec![a]).unwrap();
    assert_eq!(placed(&out.data_placement, "buf"), Some(0));
    assert_eq!(placed(&out.data_placement, "x"), Some(16));
    let image = out.application.image();
    assert_eq!(&image[out.data_base..out.data_base + 16], &[0u8; 16]);
    assert_eq!(image[out.data_base + 16], 7);
}

#[test]
fn local_symbols_of_two_objects_stay_apart() {
    let make = |name: &str, byte: u8, call: bool| {
        let mut secs = vec![section(1, ".text.helper", CODE_FLAGS, vec![byte], vec![])];
        let mut syms = vec![symbol(1, "helper", 0x02, ElfSymbolSection::Section(1))];
        if call {
            secs.push(section(2, ".text", CODE_FLAGS, vec![0xE8, 0, 0, 0, 0], vec![relocation(1, 1, ElfRelocationKind::Relative)]));
            syms.push(symbol(2, "_start", GLOBAL_FUNC, ElfSymbolSection::Section(2)));
        }
        input(name, secs, syms)
    };
    let out = link(vec![make("a.o", 0xC3, true), make("b.o", 0xCC, false)]).unwrap();
    assert_eq!(placed(&out.code_placement, "./a.o/0/helper"), Some(5));
    assert_eq!(placed(&out.code_placement, "./b.o/0/helper"), None);
    assert_eq!(out.application.image()[41], 0xC3);
}

#[test]
fn two_weak_definitions_keep_the_first() {
    let start = input(
        "start.o",
        vec![section(1, ".text", CODE_FLAGS, vec![0xA1, 0, 0, 0, 0], vec![relocation(2, 1, ElfRelocationKind::Absolute)])],
        vec![
            symbol(1, "_start", GLOBAL_FUNC, ElfSymbolSection::Section(1)),
            symbol(2, "g", GLOBAL_NOTYPE, ElfSymbolSection::Undefined),
        ],
    );
    let a = input(
        "a.o",
        vec![section(1, ".data.g", DATA_FLAGS, vec![0x41], vec![])],
        vec![symbol(1, "g", WEAK_OBJECT, ElfSymbolSection::Section(1))],
    );
    let b = input(
        "b.o",
        vec![section(1, ".data.g", DATA_FLAGS, vec![0x43], vec![])],
        vec![symbol(1, "g", WEAK_OBJECT, ElfSymbolSection::Section(1))],
    );
    let out = link(vec![start, a, b]).unwrap();
    let g = placed(&out.data_placement, "g").unwrap();
    assert_eq!(out.application.image()[out.data_base + g], 0x41);
}
