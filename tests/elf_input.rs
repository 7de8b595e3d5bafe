use kos_linker::data_table::DataTable;
use kos_linker::link::{analyze, link};
use kos_linker::symbol_table::{SymbolEntry, SymbolTable, SymbolTag};
use kos_linker::object_file::{ElfObjectFile, ElfRelocationKind, ElfRelocationTarget, ElfSymbolSection};
use kos_linker::reader::{Files, RawArchiveFile, RawObjectFile};
use object::write::{Object, Relocation, StandardSection, Symbol, SymbolSection};
use object::{Architecture, BinaryFormat, Endianness, RelocationEncoding, RelocationFlags, RelocationKind, SymbolFlags, SymbolKind, SymbolScope};

fn global(name: &str, kind: SymbolKind, section: SymbolSection, value: u64) -> Symbol {
    Symbol {
        name: name.as_bytes().to_vec(),
        value,
        size: 0,
        kind,
        scope: SymbolScope::Linkage,
        weak: false,
        section,
        flags: SymbolFlags::None,
    }
}

fn start_object() -> Vec<u8> {
    let mut obj = Object::new(BinaryFormat::Elf, Architecture::I386, Endianness::Little);
    let text = obj.section_id(StandardSection::Text);
    let off = obj.append_section_data(text, &[0xB8, 0, 0, 0, 0, 0xC3], 1);
    obj.add_symbol(global("_start", SymbolKind::Text, SymbolSection::Section(text), off));
    let msg = obj.add_symbol(global("msg", SymbolKind::Unknown, SymbolSection::Undefined, 0));
    obj.add_relocation(
        text,
        Relocation {
            offset: off + 1,
            symbol: msg,
            addend: 0,
            flags: RelocationFlags::Generic {
                kind: RelocationKind::Absolute,
                encoding: RelocationEncoding::Generic,
                size: 32,
            },
        },
    )
    .unwrap();
    obj.write().unwrap()
}

fn message_object() -> Vec<u8> {
    let mut obj = Object::new(BinaryFormat::Elf, Architecture::I386, Endianness::Little);
    let data = obj.section_id(StandardSection::Data);
    let off = obj.append_section_data(data, b"Hi\0", 1);
    obj.add_symbol(global("msg", SymbolKind::Data, SymbolSection::Section(data), off));
    obj.write().unwrap()
}

#[test]
fn parses_an_elf_object() {
    let view = ElfObjectFile::parse("start.o".to_string(), &start_object()).unwrap();
    assert_eq!(view.filename, "start.o");
    let start = view.symbols.iter().find(|s| s.name.as_deref() == Some("_start")).unwrap();
    let text = match start.section {
        ElfSymbolSection::Section(i) => view.sections.iter().find(|s| s.index == i).unwrap(),
        _ => panic!("_start lies in a section"),
    };
    assert_eq!(text.data, vec![0xB8, 0, 0, 0, 0, 0xC3]);
    assert_eq!(text.flags & 4, 4);
    assert_eq!(text.relocations.len(), 1);
    let r = text.relocations[0];
    assert_eq!((r.offset, r.size, r.kind), (1, 32, ElfRelocationKind::Absolute));
    let msg = view.symbols.iter().find(|s| s.name.as_deref() == Some("msg")).unwrap();
    assert_eq!(r.target, ElfRelocationTarget::Symbol(msg.index));
    assert_eq!(msg.section, ElfSymbolSection::Undefined);
    assert_eq!(msg.st_info >> 4, 1);
}

#[test]
fn rejects_bytes_that_are_no_object() {
    assert!(ElfObjectFile::parse("junk.o".to_string(), b"not an object").is_err());
}

#[test]
fn links_elf_objects_and_archive_members() {
    let files = Files {
        objects: vec![RawObjectFile { filename: "start.o".to_string(), data: start_object() }],
        archives: vec![RawArchiveFile {
            filename: "libmsg.rlib".to_string(),
            objects: vec![RawObjectFile { filename: "msg.o".to_string(), data: message_object() }],
        }],
    };
    let out = link(&files, "kos_app").unwrap();
    let image = out.application.image();
    assert_eq!(&image[36..42], &[0xB8, (out.data_base & 0xFF) as u8, (out.data_base >> 8) as u8, 0, 0, 0xC3]);
    assert_eq!(&image[out.data_base..out.data_base + 3], b"Hi\0");
}

#[test]
fn analysis_resolves_across_objects() {
    let files = Files {
        objects: vec![
            RawObjectFile { filename: "start.o".to_string(), data: start_object() },
            RawObjectFile { filename: "msg.o".to_string(), data: message_object() },
        ],
        archives: vec![],
    };
    let mut data_table = DataTable::new();
    let mut symbol_table = SymbolTable::new();
    analyze(&files, &mut data_table, &mut symbol_table).unwrap();
    for name in ["_start", "msg"] {
        match symbol_table.get(&SymbolTag(name.to_string())) {
            Some(SymbolEntry::Resolved(r)) => assert!(data_table.get(&r.target).is_some()),
            _ => panic!("{} is resolved", name),
        }
    }
}
