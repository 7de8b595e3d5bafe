use kos_linker::data_table::{DataEntry, DataKind, DataTable};
use kos_linker::kos_application::KosApplication;
use kos_linker::naming::{get_section_id, local_symbol_tag, push_decimal};
use kos_linker::patch::{patch_abs_reloc, patch_rel_reloc};
use kos_linker::symbol_table::{ResolvedSymbol, SymbolEntry, SymbolFlag, SymbolTable, SymbolTag};
use kos_linker::uid_generator::{UniqueId, UniqueIdGenerator};
use kos_linker::writer::{BufferRegion, Operation, Writer};

#[test]
fn absolute_patch_adds_addend() {
    let mut buf = vec![0xAA, 0x10, 0, 0, 0, 0xBB];
    patch_abs_reloc(&mut buf, 1, 4, 0x1000, true);
    assert_eq!(buf, vec![0xAA, 0x10, 0x10, 0, 0, 0xBB]);
}

#[test]
fn absolute_patch_wraps() {
    let mut buf = vec![0xFF, 0xFF, 0xFF, 0xFF];
    patch_abs_reloc(&mut buf, 0, 4, 2, true);
    assert_eq!(buf, vec![1, 0, 0, 0]);
}

#[test]
fn relative_patch_law() {
    let mut buf = vec![0xE8, 9, 9, 9, 9];
    patch_rel_reloc(&mut buf, 1, 100, 4, 200);
    let word = u32::from_le_bytes([buf[1], buf[2], buf[3], buf[4]]);
    assert_eq!(word, 200 - (100 + 1 + 4));
    let mut back = vec![0; 4];
    patch_rel_reloc(&mut back, 0, 100, 4, 50);
    assert_eq!(u32::from_le_bytes([back[0], back[1], back[2], back[3]]), 50u32.wrapping_sub(104));
}

#[test]
fn section_ids_and_local_tags() {
    assert_eq!(get_section_id(None, "a.o", 12), "./a.o/12");
    assert_eq!(get_section_id(Some("libx.rlib"), "m.o", 0), "libx.rlib/m.o/0");
    let t1 = local_symbol_tag(None, "a.o", 0, "helper");
    let t2 = local_symbol_tag(None, "b.o", 0, "helper");
    assert_eq!(t1.0, "./a.o/0/helper");
    assert_ne!(t1, t2);
    let mut s = String::from("n=");
    push_decimal(&mut s, 1907);
    assert_eq!(s, "n=1907");
}

#[test]
fn ids_count_up() {
    let mut g = UniqueIdGenerator::new();
    assert_eq!(g.next(), UniqueId(1));
    assert_eq!(g.next(), UniqueId(2));
}

#[test]
fn table_registers_and_finds() {
    let mut t = DataTable::new();
    let entry = DataEntry { alignment: 4, data: vec![1, 2], size: 2, kind: DataKind::Data, relocations: vec![] };
    let id = t.register(entry);
    assert_eq!(id, UniqueId(1));
    assert_eq!(t.get(&id).unwrap().data, vec![1, 2]);
    assert!(t.get(&UniqueId(2)).is_none());
}

fn resolved(target: u64, flag: SymbolFlag) -> ResolvedSymbol {
    ResolvedSymbol { target: UniqueId(target), offset: 0, flags: Some(flag) }
}

#[test]
fn global_overrides_weak_and_duplicates_fail() {
    let mut st = SymbolTable::new();
    let g = SymbolTag("g".to_string());
    st.define(&g, resolved(1, SymbolFlag::Weak)).unwrap();
    st.define(&g, resolved(2, SymbolFlag::Global)).unwrap();
    st.define(&g, resolved(3, SymbolFlag::Weak)).unwrap();
    match st.get(&g) {
        Some(SymbolEntry::Resolved(r)) => assert_eq!(r.target, UniqueId(2)),
        _ => panic!("g is resolved"),
    }
    assert!(st.define(&g, resolved(4, SymbolFlag::Global)).is_err());
    st.reference(&SymbolTag("h".to_string()));
    assert!(matches!(st.get(&SymbolTag("h".to_string())), Some(SymbolEntry::Unresolved)));
    assert!(resolved(1, SymbolFlag::Weak).is_weak());
    assert!(resolved(1, SymbolFlag::Global).is_global());
}

#[test]
fn writer_appends_and_updates() {
    let mut w = Writer::new("out");
    let r = w.insert_string(Operation::Append, "AB");
    assert_eq!(r, BufferRegion::new(0, 2));
    w.insert_u32(Operation::Append, 0x04030201);
    w.append_padding(8, Some(0xEE));
    w.insert_u32(Operation::Update(BufferRegion::new(2, 4)), 0x0A0B0C0D);
    w.append_dup(7, 2);
    assert_eq!(w.buffer(), &vec![b'A', b'B', 0x0D, 0x0C, 0x0B, 0x0A, 0xEE, 0xEE, 7, 7]);
    assert_eq!(w.offset(), 10);
    assert_eq!(BufferRegion::new(3, 2).range(), 3..5);
    w.clear();
    assert_eq!(w.offset(), 0);
}

#[test]
fn image_header_matches_regions() {
    let mut app = KosApplication::new("kos_app");
    let (code_base, data_base) = app.build(vec![1, 2, 3], vec![9; 5]);
    let img = app.image();
    let word = |at: usize| u32::from_le_bytes([img[at], img[at + 1], img[at + 2], img[at + 3]]);
    assert_eq!((code_base, data_base), (36, 48 + 4096));
    assert_eq!(word(12), 36);
    assert_eq!(word(16), 39);
    assert_eq!(word(20), (data_base + 5) as u32);
    assert_eq!(word(24), data_base as u32);
    assert_eq!(word(28), 0);
    assert_eq!(word(32), 0);
    assert_eq!(&img[data_base..], &[9; 5]);
    assert_eq!(app.get_offsets(3, 5), (36, 48 + 4096));
}
