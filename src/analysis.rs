use vstd::prelude::*;

use crate::data_table::{entries_wf, DataEntry, DataKind, DataTable, RelocationEntry, RelocationType};
use crate::error::LinkError;
use crate::naming::{local_symbol_tag, local_tag};
use crate::object_file::{
    binding, get_symbol_name, is_executable_section, is_global_symbol, is_local_symbol, is_weak_symbol,
    own_name, own_symbol_name, symbol_name, is_external_symbol, ElfObjectFile, ElfRelocation, ElfRelocationKind, ElfRelocationTarget,
    ElfSection, ElfSectionKind, ElfSymbol, ElfSymbolSection, STB_GLOBAL, STB_LOCAL, STB_WEAK,
};
use crate::symbol_table::{
    merged_definition, ResolvedSymbol, SymbolEntry, SymbolFlag, SymbolTable, SymbolTag,
};
use crate::uid_generator::UniqueId;

verus! {

/// One object of the link: its typed view and the archive it came from, if any.
#[derive(Debug, Clone)]
pub struct InputObject {
    pub archive: Option<String>,
    pub elf: ElfObjectFile,
}

pub open spec fn archive_view(archive: Option<&str>) -> Option<Seq<char>> {
    match archive {
        Some(a) => Some(a@),
        None => None,
    }
}

/// The tag of `symbol` of `object`: the local form for a local symbol (named
/// by its own name or its section's), its own name otherwise.
pub open spec fn symbol_tag_of(
    archive: Option<Seq<char>>,
    elf: ElfObjectFile,
    symbol: ElfSymbol,
) -> Option<Seq<char>> {
    if binding(symbol.st_info) == STB_LOCAL {
        match symbol_name(symbol, Some(elf)) {
            Some(n) => Some(local_tag(archive, elf.filename@, 0, n)),
            None => None,
        }
    } else {
        own_name(symbol)
    }
}

/// The flag that a symbol's binding gives it.
pub open spec fn flag_of(st_info: u8) -> Option<SymbolFlag> {
    if binding(st_info) == STB_GLOBAL {
        Some(SymbolFlag::Global)
    } else if binding(st_info) == STB_LOCAL {
        Some(SymbolFlag::Local)
    } else if binding(st_info) == STB_WEAK {
        Some(SymbolFlag::Weak)
    } else {
        None
    }
}

pub open spec fn data_kind_of(section: ElfSection) -> DataKind {
    match section.spec_kind() {
        ElfSectionKind::Code => DataKind::Code,
        ElfSectionKind::Data => DataKind::Data,
    }
}

/// A section's sizes fit the machine.
pub open spec fn section_fits(section: ElfSection) -> bool {
    section.size <= usize::MAX && section.alignment <= usize::MAX
}

/// `e` is the table entry made from `section`, before relocations are attached.
/// An alignment of zero means none and becomes one.
pub open spec fn entry_from_section(e: DataEntry, section: ElfSection) -> bool {
    &&& e.alignment == (if section.alignment == 0 {
        1
    } else {
        section.alignment
    })
    &&& e.data@ == section.data@
    &&& e.size == section_span(section)
    &&& e.kind == data_kind_of(section)
}

/// A symbol that lies in a section can be defined: its section exists and
/// fits, it has a tag, and its offset fits.
pub open spec fn definable(archive: Option<Seq<char>>, elf: ElfObjectFile, symbol: ElfSymbol) -> bool {
    match symbol.section {
        ElfSymbolSection::Section(i) => {
            &&& elf.section_position(i) is Some
            &&& section_fits(elf.sections[elf.section_position(i)->0])
            &&& symbol_tag_of(archive, elf, symbol) is Some
            &&& symbol.offset <= usize::MAX
        },
        _ => true,
    }
}

/// The definitions made by the first `n` symbols of `object`, with
/// `uids[p]` the handle of the section at position `p`.
pub open spec fn definitions_upto(
    archive: Option<Seq<char>>,
    elf: ElfObjectFile,
    uids: Seq<Option<UniqueId>>,
    n: nat,
) -> Seq<(Seq<char>, ResolvedSymbol)>
    decreases n,
{
    if n == 0 {
        Seq::empty()
    } else {
        let prev = definitions_upto(archive, elf, uids, (n - 1) as nat);
        let symbol = elf.symbols[n - 1];
        match symbol.section {
            ElfSymbolSection::Section(i) => prev.push(
                (
                    symbol_tag_of(archive, elf, symbol)->0,
                    ResolvedSymbol {
                        target: uids[elf.section_position(i)->0]->0,
                        offset: symbol.offset as usize,
                        flags: flag_of(symbol.st_info),
                    },
                ),
            ),
            _ => prev,
        }
    }
}

/// The symbol map after `defs` are defined in order, or `None` where one of
/// them is a second non-weak definition.
pub open spec fn define_all(
    m: Map<Seq<char>, SymbolEntry>,
    defs: Seq<(Seq<char>, ResolvedSymbol)>,
) -> Option<Map<Seq<char>, SymbolEntry>>
    decreases defs.len(),
{
    if defs.len() == 0 {
        Some(m)
    } else {
        match define_all(m, defs.drop_last()) {
            Some(prev) => match merged_definition(prev.get(defs.last().0), defs.last().1) {
                Some(e) => Some(prev.insert(defs.last().0, e)),
                None => None,
            },
            None => None,
        }
    }
}

/// Entries in `dt` at and after `from` carry no relocations and have a positive alignment.
pub open spec fn fresh_entries_wf(dt: Seq<DataEntry>, from: int) -> bool {
    forall|k: int|
        from <= k < dt.len() ==> (#[trigger] dt[k]).alignment > 0 && dt[k].relocations@.len() == 0
            && dt[k].size >= dt[k].data@.len()
}

/// The tag of `symbol`: see `symbol_tag_of`.
pub fn get_symbol_tag(archive_filename: Option<&str>, object_file: &ElfObjectFile, symbol: &ElfSymbol) -> (r:
    Option<SymbolTag>)
    ensures
        match r {
            Some(t) => symbol_tag_of(archive_view(archive_filename), *object_file, *symbol) == Some(t@),
            None => symbol_tag_of(archive_view(archive_filename), *object_file, *symbol) is None,
        },
{
    if is_local_symbol(symbol) {
        match get_symbol_name(symbol, Some(object_file)) {
            Some(name) => Some(
                local_symbol_tag(archive_filename, object_file.filename.as_str(), 0, name.as_str()),
            ),
            None => None,
        }
    } else {
        match own_symbol_name(symbol) {
            Some(name) => Some(SymbolTag(name)),
            None => None,
        }
    }
}

fn symbol_flag(symbol: &ElfSymbol) -> (r: Option<SymbolFlag>)
    ensures
        r == flag_of(symbol.st_info),
{
    if is_global_symbol(symbol) {
        Some(SymbolFlag::Global)
    } else if is_local_symbol(symbol) {
        Some(SymbolFlag::Local)
    } else if is_weak_symbol(symbol) {
        Some(SymbolFlag::Weak)
    } else {
        None
    }
}

fn parse_failure(object_file: &ElfObjectFile) -> (r: LinkError)
    ensures
        r matches LinkError::ParseFailure { .. },
{
    LinkError::ParseFailure { file: object_file.filename.clone() }
}

/// The table entry for `section`, with no relocations yet.
fn section_entry(section: &ElfSection) -> (r: DataEntry)
    requires
        section_fits(*section),
    ensures
        entry_from_section(r, *section),
        r.relocations@.len() == 0,
        r.alignment > 0,
        r.size >= r.data@.len(),
{
    let kind = if is_executable_section(section) {
        DataKind::Code
    } else {
        DataKind::Data
    };
    let alignment = if section.alignment == 0 {
        1
    } else {
        section.alignment as usize
    };
    DataEntry {
        alignment,
        data: section.data.clone(),
        size: if section.size as usize >= section.data.len() {
            section.size as usize
        } else {
            section.data.len()
        },
        kind,
        relocations: Vec::new(),
    }
}

proof fn lemma_definitions_stable(
    archive: Option<Seq<char>>,
    elf: ElfObjectFile,
    u1: Seq<Option<UniqueId>>,
    u2: Seq<Option<UniqueId>>,
    n: nat,
)
    requires
        n <= elf.symbols.len(),
        forall|j: int|
            0 <= j < n ==> match (#[trigger] elf.symbols[j]).section {
                ElfSymbolSection::Section(i) => u1[elf.section_position(i)->0] == u2[elf.section_position(i)->0],
                _ => true,
            },
    ensures
        definitions_upto(archive, elf, u1, n) == definitions_upto(archive, elf, u2, n),
    decreases n,
{
    if n > 0 {
        lemma_definitions_stable(archive, elf, u1, u2, (n - 1) as nat);
        let _ = elf.symbols[n - 1];
    }
}

/// Some symbol of `elf` lies in the section at position `p`: the first pass
/// registers that section.
pub open spec fn registered(elf: ElfObjectFile, p: int) -> bool {
    exists|j: int|
        0 <= j < elf.symbols.len() && #[trigger] symbol_in_section(elf, elf.symbols[j], p)
}

/// `symbol` lies in the section at position `p` of `elf`.
pub open spec fn symbol_in_section(elf: ElfObjectFile, symbol: ElfSymbol, p: int) -> bool {
    symbol.section matches ElfSymbolSection::Section(i) && elf.section_position(i) == Some(p)
}

/// Symbol `j` of `elf` defines `t` with a non-weak binding.
pub open spec fn defines_non_weak(archive: Option<Seq<char>>, elf: ElfObjectFile, j: int, t: Seq<char>) -> bool {
    &&& elf.symbols[j].section is Section
    &&& symbol_tag_of(archive, elf, elf.symbols[j]) == Some(t)
    &&& flag_of(elf.symbols[j].st_info) != Some(SymbolFlag::Weak)
}

/// `m` holds a non-weak definition of `t`.
pub open spec fn non_weak_entry(m: Map<Seq<char>, SymbolEntry>, t: Seq<char>) -> bool {
    m.contains_key(t) && m[t] is Resolved && !m[t]->Resolved_0.spec_is_weak()
}

/// Symbol `k` is a second non-weak definition of its tag: the table already
/// held one, or an earlier symbol of this object made one.
pub open spec fn conflict_at(
    m: Map<Seq<char>, SymbolEntry>,
    archive: Option<Seq<char>>,
    elf: ElfObjectFile,
    k: int,
    t: Seq<char>,
) -> bool {
    &&& defines_non_weak(archive, elf, k, t)
    &&& (non_weak_entry(m, t) || exists|j: int| 0 <= j < k && #[trigger] defines_non_weak(archive, elf, j, t))
}

/// No handle stands at two section positions.
pub open spec fn uids_distinct(uids: Seq<Option<UniqueId>>) -> bool {
    forall|p: int, q: int|
        0 <= p < uids.len() && 0 <= q < uids.len() && (#[trigger] uids[p]) is Some && #[trigger] uids[q]
            == uids[p] ==> p == q
}

/// First pass over one object: registers the section of every symbol that
/// lies in one (once per section) and defines every such symbol under its
/// tag. Returns the handle of each section position, where it got one.
#[verifier::rlimit(100)]
pub fn parse_firstpass(
    archive_filename: Option<&str>,
    object_file: &ElfObjectFile,
    data_table: &mut DataTable,
    symbol_table: &mut SymbolTable,
) -> (r: Result<Vec<Option<UniqueId>>, LinkError>)
    requires
        old(data_table).wf(),
        old(symbol_table).wf(),
        old(data_table)@.len() + object_file.symbols@.len() < u64::MAX,
    ensures
        final(data_table).wf(),
        final(symbol_table).wf(),
        final(data_table)@.len() >= old(data_table)@.len(),
        final(data_table)@.len() <= old(data_table)@.len() + object_file.symbols@.len(),
        forall|j: int| 0 <= j < old(data_table)@.len() ==> #[trigger] final(data_table)@[j] == old(data_table)@[j],
        fresh_entries_wf(final(data_table)@, old(data_table)@.len() as int),
        match r {
            Ok(uids) => {
                let a = archive_view(archive_filename);
                &&& uids@.len() == object_file.sections@.len()
                &&& forall|p: int|
                    0 <= p < uids@.len() && (#[trigger] uids@[p]) is Some ==> old(data_table)@.len()
                        < (uids@[p]->0).0 <= final(data_table)@.len() && entry_from_section(
                        final(data_table).entry(uids@[p]->0),
                        object_file.sections@[p],
                    )
                &&& forall|j: int|
                    0 <= j < object_file.symbols@.len() ==> definable(a, *object_file, #[trigger] object_file.symbols@[j])
                        && match object_file.symbols@[j].section {
                        ElfSymbolSection::Section(i) => uids@[object_file.section_position(i)->0] is Some,
                        _ => true,
                    }
                &&& define_all(
                    old(symbol_table)@,
                    definitions_upto(a, *object_file, uids@, object_file.symbols@.len()),
                ) == Some(final(symbol_table)@)
                &&& uids_distinct(uids@)
                &&& forall|q: int|
                    0 <= q < uids@.len() ==> ((#[trigger] uids@[q]) is Some <==> registered(*object_file, q))
                &&& forall|t: Seq<char>|
                    #[trigger] non_weak_entry(final(symbol_table)@, t) <==> non_weak_entry(old(symbol_table)@, t)
                        || exists|j: int|
                        0 <= j < object_file.symbols@.len() && #[trigger] defines_non_weak(
                            archive_view(archive_filename),
                            *object_file,
                            j,
                            t,
                        )
            },
            Err(LinkError::ParseFailure { .. }) => exists|j: int|
                0 <= j < object_file.symbols@.len() && !definable(
                    archive_view(archive_filename),
                    *object_file,
                    #[trigger] object_file.symbols@[j],
                ),
            Err(LinkError::MultipleDefinition { tag }) => exists|k: int|
                0 <= k < object_file.symbols@.len() && #[trigger] conflict_at(
                    old(symbol_table)@,
                    archive_view(archive_filename),
                    *object_file,
                    k,
                    tag@,
                ),
            Err(_) => false,
        },
        r is Ok <==> (forall|j: int|
            0 <= j < object_file.symbols@.len() ==> definable(
                archive_view(archive_filename),
                *object_file,
                #[trigger] object_file.symbols@[j],
            )) && (forall|k: int, t: Seq<char>|
            0 <= k < object_file.symbols@.len() ==> !#[trigger] conflict_at(
                old(symbol_table)@,
                archive_view(archive_filename),
                *object_file,
                k,
                t,
            )),
{
    let ghost a = archive_view(archive_filename);
    let ghost old_len = data_table@.len();
    let ghost old_st = symbol_table@;
    let ghost old_dt = data_table@;
    let mut uids: Vec<Option<UniqueId>> = Vec::new();
    let mut p: usize = 0;
    while p < object_file.sections.len()
        invariant
            p <= object_file.sections@.len(),
            uids@.len() == p,
            forall|q: int| 0 <= q < p ==> uids@[q] is None,
        decreases object_file.sections.len() - p,
    {
        uids.push(None);
        p = p + 1;
    }
    proof {
        assert(fresh_entries_wf(data_table@, old_len as int));
        assert(uids_distinct(uids@));
    }
    let mut k: usize = 0;
    while k < object_file.symbols.len()
        invariant
            a == archive_view(archive_filename),
            k <= object_file.symbols@.len(),
            uids@.len() == object_file.sections@.len(),
            data_table.wf(),
            symbol_table.wf(),
            old_len == old(data_table)@.len(),
            old_dt == old(data_table)@,
            old_st == old(symbol_table)@,
            old_len + object_file.symbols@.len() < u64::MAX,
            data_table@.len() >= old_len,
            data_table@.len() <= old_len + k,
            forall|j: int| 0 <= j < old_len ==> #[trigger] data_table@[j] == old_dt[j],
            fresh_entries_wf(data_table@, old_len as int),
            forall|q: int|
                0 <= q < uids@.len() && (#[trigger] uids@[q]) is Some ==> old_len < (uids@[q]->0).0
                    <= data_table@.len() && entry_from_section(data_table.entry(uids@[q]->0), object_file.sections@[q]),
            forall|j: int|
                0 <= j < k ==> definable(a, *object_file, #[trigger] object_file.symbols@[j]) && match object_file.symbols@[j].section {
                    ElfSymbolSection::Section(i) => uids@[object_file.section_position(i)->0] is Some,
                    _ => true,
                },
            define_all(old_st, definitions_upto(a, *object_file, uids@, k as nat)) == Some(symbol_table@),
            forall|t: Seq<char>|
                #[trigger] non_weak_entry(symbol_table@, t) <==> non_weak_entry(old_st, t) || exists|j: int|
                    0 <= j < k && #[trigger] defines_non_weak(a, *object_file, j, t),
            forall|k2: int, t: Seq<char>| 0 <= k2 < k ==> !#[trigger] conflict_at(old_st, a, *object_file, k2, t),
            uids_distinct(uids@),
            forall|q: int|
                0 <= q < uids@.len() && (#[trigger] uids@[q]) is Some ==> exists|j: int|
                    0 <= j < k && #[trigger] symbol_in_section(*object_file, object_file.symbols@[j], q),
        decreases object_file.symbols.len() - k,
    {
        let symbol = &object_file.symbols[k];
        match symbol.section {
            ElfSymbolSection::Section(i) => {
                let p = match object_file.find_section(i) {
                    Some(p) => p,
                    None => {
                        return Err(parse_failure(object_file));
                    },
                };
                let section = &object_file.sections[p];
                if section.size > usize::MAX as u64 || section.alignment > usize::MAX as u64 || symbol.offset
                    > usize::MAX as u64 {
                    return Err(parse_failure(object_file));
                }
                let tag = match get_symbol_tag(archive_filename, object_file, symbol) {
                    Some(t) => t,
                    None => {
                        return Err(parse_failure(object_file));
                    },
                };
                let ghost uids_before = uids@;
                let uid = match uids[p] {
                    Some(u) => u,
                    None => {
                        let u = data_table.register(section_entry(section));
                        uids.set(p, Some(u));
                        assert(symbol_in_section(*object_file, object_file.symbols@[k as int], p as int));
                        u
                    },
                };
                proof {
                    assert forall|j: int| 0 <= j < k implies match (#[trigger] object_file.symbols@[j]).section {
                        ElfSymbolSection::Section(i) => uids_before[object_file.section_position(i)->0]
                            == uids@[object_file.section_position(i)->0],
                        _ => true,
                    } by {
                        match object_file.symbols@[j].section {
                            ElfSymbolSection::Section(i2) => {
                                assert(uids_before[object_file.section_position(i2)->0] is Some);
                            },
                            _ => {},
                        }
                    }
                    lemma_definitions_stable(a, *object_file, uids_before, uids@, k as nat);
                }
                let resolved = ResolvedSymbol {
                    target: uid,
                    offset: symbol.offset as usize,
                    flags: symbol_flag(symbol),
                };
                let ghost defs = definitions_upto(a, *object_file, uids@, (k + 1) as nat);
                assert(defs.drop_last() == definitions_upto(a, *object_file, uids@, k as nat));
                assert(defs.last() == (tag@, resolved));
                let ghost before = symbol_table@;
                proof {
                    assert(resolved.spec_is_weak() == !defines_non_weak(a, *object_file, k as int, tag@));
                }
                match symbol_table.define(&tag, resolved) {
                    Ok(()) => {
                        proof {
                            assert forall|t: Seq<char>|
                                #[trigger] non_weak_entry(symbol_table@, t) <==> non_weak_entry(old_st, t)
                                    || exists|j: int| 0 <= j < k + 1 && #[trigger] defines_non_weak(a, *object_file, j, t) by {
                                assert(non_weak_entry(before, t) <==> non_weak_entry(old_st, t) || exists|j: int|
                                    0 <= j < k && #[trigger] defines_non_weak(a, *object_file, j, t));
                                if exists|j: int| 0 <= j < k && #[trigger] defines_non_weak(a, *object_file, j, t) {
                                    let j = choose|j: int| 0 <= j < k && #[trigger] defines_non_weak(a, *object_file, j, t);
                                    assert(0 <= j < k + 1 && defines_non_weak(a, *object_file, j, t));
                                }
                                if t != tag@ {
                                    if exists|j: int| 0 <= j < k + 1 && #[trigger] defines_non_weak(a, *object_file, j, t) {
                                        let j = choose|j: int| 0 <= j < k + 1 && #[trigger] defines_non_weak(a, *object_file, j, t);
                                        assert(j < k);
                                    }
                                } else if defines_non_weak(a, *object_file, k as int, t) {
                                    assert(non_weak_entry(symbol_table@, t));
                                } else {
                                    if exists|j: int| 0 <= j < k + 1 && #[trigger] defines_non_weak(a, *object_file, j, t) {
                                        let j = choose|j: int| 0 <= j < k + 1 && #[trigger] defines_non_weak(a, *object_file, j, t);
                                        assert(j < k);
                                    }
                                }
                            }
                            assert forall|k2: int, t: Seq<char>| 0 <= k2 < k + 1 implies !#[trigger] conflict_at(old_st, a, *object_file, k2, t) by {
                                if k2 == k && conflict_at(old_st, a, *object_file, k2, t) {
                                    assert(t == tag@);
                                    assert(non_weak_entry(before, t));
                                }
                            }
                        }
                    },
                    Err(e) => {
                        proof {
                            assert(non_weak_entry(before, tag@));
                            assert(non_weak_entry(before, tag@) <==> non_weak_entry(old_st, tag@) || exists|j: int|
                                0 <= j < k && #[trigger] defines_non_weak(a, *object_file, j, tag@));
                            assert(conflict_at(old_st, a, *object_file, k as int, tag@));
                        }
                        return Err(e);
                    },
                }
            },
            _ => {
                proof {
                    assert forall|t: Seq<char>|
                        #[trigger] non_weak_entry(symbol_table@, t) <==> non_weak_entry(old_st, t)
                            || exists|j: int| 0 <= j < k + 1 && #[trigger] defines_non_weak(a, *object_file, j, t) by {
                        if exists|j: int| 0 <= j < k + 1 && #[trigger] defines_non_weak(a, *object_file, j, t) {
                            let j = choose|j: int| 0 <= j < k + 1 && #[trigger] defines_non_weak(a, *object_file, j, t);
                            assert(j < k);
                        }
                    }
                    assert forall|k2: int, t: Seq<char>| 0 <= k2 < k + 1 implies !#[trigger] conflict_at(old_st, a, *object_file, k2, t) by {
                        if k2 == k {
                            assert(!defines_non_weak(a, *object_file, k2, t));
                        }
                    }
                }
                assert(definitions_upto(a, *object_file, uids@, (k + 1) as nat) == definitions_upto(
                    a,
                    *object_file,
                    uids@,
                    k as nat,
                ));
            },
        }
        k = k + 1;
    }
    Ok(uids)
}

pub open spec fn relocation_type_of(kind: ElfRelocationKind) -> Option<RelocationType> {
    match kind {
        ElfRelocationKind::Absolute => Some(RelocationType::Absolute),
        ElfRelocationKind::Relative => Some(RelocationType::Relative),
        ElfRelocationKind::PltRelative => Some(RelocationType::Relative),
        ElfRelocationKind::Unsupported => None,
    }
}

/// The symbol a relocation targets.
pub open spec fn relocation_symbol(elf: ElfObjectFile, r: ElfRelocation) -> Option<ElfSymbol> {
    match r.target {
        ElfRelocationTarget::Symbol(idx) => elf.symbol_at(idx),
        _ => None,
    }
}

/// The tag a relocation refers to: that of a symbol of this object that lies
/// in a section, or the name of a global external.
pub open spec fn relocation_tag(archive: Option<Seq<char>>, elf: ElfObjectFile, r: ElfRelocation) -> Option<
    Seq<char>,
> {
    match relocation_symbol(elf, r) {
        Some(s) => if s.section is Section {
            symbol_tag_of(archive, elf, s)
        } else if s.spec_is_external() && binding(s.st_info) == STB_GLOBAL {
            own_name(s)
        } else {
            None
        },
        None => None,
    }
}

/// The laid-out span of a section.
pub open spec fn section_span(section: ElfSection) -> nat {
    if section.size >= section.data@.len() {
        section.size as nat
    } else {
        section.data@.len()
    }
}

/// The target of `r` is neither a symbol of this object that lies in a
/// section nor a global external.
pub open spec fn unsupported_reference(elf: ElfObjectFile, r: ElfRelocation) -> bool {
    match r.target {
        ElfRelocationTarget::Symbol(idx) => match elf.symbol_at(idx) {
            Some(s) => !(s.section is Section) && !(s.spec_is_external() && binding(s.st_info)
                == STB_GLOBAL),
            None => false,
        },
        _ => true,
    }
}

/// `e` is the error that relocation `r` gives: an unsupported kind first,
/// then an unsupported target, otherwise a malformed object.
pub open spec fn relocation_error(
    e: LinkError,
    archive: Option<Seq<char>>,
    elf: ElfObjectFile,
    section: ElfSection,
    r: ElfRelocation,
) -> bool {
    &&& !recordable(archive, elf, section, r)
    &&& if relocation_type_of(r.kind) is None {
        e matches LinkError::UnsupportedRelocKind { .. }
    } else if unsupported_reference(elf, r) {
        e matches LinkError::UnsupportedReference { .. }
    } else {
        e matches LinkError::ParseFailure { .. }
    }
}

/// Relocation `r` of `section` can be recorded.
pub open spec fn recordable(
    archive: Option<Seq<char>>,
    elf: ElfObjectFile,
    section: ElfSection,
    r: ElfRelocation,
) -> bool {
    &&& relocation_type_of(r.kind) is Some
    &&& relocation_tag(archive, elf, r) is Some
    &&& r.offset + r.size / 8 <= section_span(section)
}

/// `e` records relocation `r`.
pub open spec fn entry_from_relocation(
    e: RelocationEntry,
    archive: Option<Seq<char>>,
    elf: ElfObjectFile,
    r: ElfRelocation,
) -> bool {
    &&& Some(e.target@) == relocation_tag(archive, elf, r)
    &&& e.size == r.size / 8
    &&& Some(e.rtype) == relocation_type_of(r.kind)
    &&& e.offset == r.offset
}

fn relocation_type(kind: ElfRelocationKind) -> (r: Option<RelocationType>)
    ensures
        r == relocation_type_of(kind),
{
    match kind {
        ElfRelocationKind::Absolute => Some(RelocationType::Absolute),
        ElfRelocationKind::Relative => Some(RelocationType::Relative),
        ElfRelocationKind::PltRelative => Some(RelocationType::Relative),
        ElfRelocationKind::Unsupported => None,
    }
}

/// The tag relocation `r` refers to.
fn relocation_target_tag(
    archive_filename: Option<&str>,
    object_file: &ElfObjectFile,
    section: &ElfSection,
    r: &ElfRelocation,
) -> (res: Result<SymbolTag, LinkError>)
    ensures
        match res {
            Ok(t) => relocation_tag(archive_view(archive_filename), *object_file, *r) == Some(t@),
            Err(e) => relocation_tag(archive_view(archive_filename), *object_file, *r) is None && if unsupported_reference(*object_file, *r) {
                e matches LinkError::UnsupportedReference { .. }
            } else {
                e matches LinkError::ParseFailure { .. }
            },
        },
{
    let index = match r.target {
        ElfRelocationTarget::Symbol(index) => index,
        _ => {
            return Err(LinkError::UnsupportedReference { file: object_file.filename.clone(), section: section.index });
        },
    };
    let symbol = match object_file.find_symbol(index) {
        Some(p) => &object_file.symbols[p],
        None => {
            return Err(parse_failure(object_file));
        },
    };
    match symbol.section {
        ElfSymbolSection::Section(_) => match get_symbol_tag(archive_filename, object_file, symbol) {
            Some(t) => Ok(t),
            None => Err(parse_failure(object_file)),
        },
        _ => {
            if is_external_symbol(symbol) && is_global_symbol(symbol) {
                match own_symbol_name(symbol) {
                    Some(name) => Ok(SymbolTag(name)),
                    None => Err(parse_failure(object_file)),
                }
            } else {
                Err(LinkError::UnsupportedReference { file: object_file.filename.clone(), section: section.index })
            }
        },
    }
}

/// The record of relocation `r` of `section`; references its target tag.
fn record_relocation(
    archive_filename: Option<&str>,
    object_file: &ElfObjectFile,
    section: &ElfSection,
    r: &ElfRelocation,
    symbol_table: &mut SymbolTable,
) -> (res: Result<RelocationEntry, LinkError>)
    requires
        old(symbol_table).wf(),
        section.size <= usize::MAX,
    ensures
        final(symbol_table).wf(),
        match res {
            Ok(e) => recordable(archive_view(archive_filename), *object_file, *section, *r)
                && entry_from_relocation(e, archive_view(archive_filename), *object_file, *r)
                && final(symbol_table)@ == if old(symbol_table)@.contains_key(e.target@) {
                    old(symbol_table)@
                } else {
                    old(symbol_table)@.insert(e.target@, SymbolEntry::Unresolved)
                },
            Err(e) => relocation_error(e, archive_view(archive_filename), *object_file, *section, *r)
                && final(symbol_table)@ == old(symbol_table)@,
        },
{
    let rtype = match relocation_type(r.kind) {
        Some(t) => t,
        None => {
            return Err(LinkError::UnsupportedRelocKind { file: object_file.filename.clone(), section: section.index });
        },
    };
    let tag = match relocation_target_tag(archive_filename, object_file, section, r) {
        Ok(t) => t,
        Err(e) => {
            return Err(e);
        },
    };
    let width = (r.size / 8) as usize;
    let span: usize = if section.size as usize >= section.data.len() {
        section.size as usize
    } else {
        section.data.len()
    };
    if r.offset > span as u64 || width > span - (r.offset as usize) {
        return Err(parse_failure(object_file));
    }
    symbol_table.reference(&tag);
    Ok(RelocationEntry { target: tag, size: width, rtype, offset: r.offset as usize })
}

/// `e2` is `e1` with possibly other relocations.
pub open spec fn same_but_relocations(e1: DataEntry, e2: DataEntry) -> bool {
    e2 == DataEntry { relocations: e2.relocations, ..e1 }
}

/// The relocations of `section` are recorded in `e`.
pub open spec fn relocations_recorded(
    e: DataEntry,
    archive: Option<Seq<char>>,
    elf: ElfObjectFile,
    section: ElfSection,
) -> bool {
    &&& e.relocations@.len() == section.relocations@.len()
    &&& forall|j: int|
        0 <= j < section.relocations@.len() ==> recordable(archive, elf, section, #[trigger] section.relocations@[j])
            && entry_from_relocation(e.relocations@[j], archive, elf, section.relocations@[j])
}

/// `uid` stands at a position before `p` in `uids`.
pub open spec fn uid_before(uids: Seq<Option<UniqueId>>, p: int, k: int) -> bool {
    exists|q: int| 0 <= q < p && #[trigger] uids[q] == Some(UniqueId((k + 1) as u64))
}

/// Second pass over one object: records the relocations of every section
/// that the first pass registered, and references each target tag.
pub fn parse_secondpass(
    archive_filename: Option<&str>,
    object_file: &ElfObjectFile,
    uids: &Vec<Option<UniqueId>>,
    data_table: &mut DataTable,
    symbol_table: &mut SymbolTable,
) -> (r: Result<(), LinkError>)
    requires
        old(data_table).wf(),
        old(symbol_table).wf(),
        uids@.len() == object_file.sections@.len(),
        uids_distinct(uids@),
        forall|p: int|
            0 <= p < uids@.len() && (#[trigger] uids@[p]) is Some ==> old(data_table).contains(uids@[p]->0)
                && entry_from_section(old(data_table).entry(uids@[p]->0), object_file.sections@[p]),
    ensures
        final(data_table).wf(),
        final(symbol_table).wf(),
        final(data_table)@.len() == old(data_table)@.len(),
        forall|k: int|
            0 <= k < old(data_table)@.len() ==> same_but_relocations(old(data_table)@[k], #[trigger] final(data_table)@[k]),
        forall|t: Seq<char>| #[trigger] old(symbol_table)@.contains_key(t) ==> final(symbol_table)@.contains_key(t)
            && final(symbol_table)@[t] == old(symbol_table)@[t],
        forall|t: Seq<char>|
            #[trigger] final(symbol_table)@.contains_key(t) && !old(symbol_table)@.contains_key(t)
                ==> final(symbol_table)@[t] == SymbolEntry::Unresolved,
        match r {
            Ok(()) => {
                &&& forall|p: int|
                    0 <= p < uids@.len() && (#[trigger] uids@[p]) is Some ==> relocations_recorded(
                        final(data_table).entry(uids@[p]->0),
                        archive_view(archive_filename),
                        *object_file,
                        object_file.sections@[p],
                    )
                &&& forall|p: int, j: int|
                    0 <= p < uids@.len() && (#[trigger] uids@[p]) is Some && 0 <= j
                        < object_file.sections@[p].relocations@.len() ==> final(symbol_table)@.contains_key(
                        relocation_tag(
                            archive_view(archive_filename),
                            *object_file,
                            #[trigger] object_file.sections@[p].relocations@[j],
                        )->0,
                    )
                &&& forall|k: int|
                    0 <= k < old(data_table)@.len() && !uid_before(uids@, uids@.len() as int, k)
                        ==> #[trigger] final(data_table)@[k] == old(data_table)@[k]
            },
            Err(e) => exists|p: int, j: int|
                0 <= p < uids@.len() && (#[trigger] uids@[p]) is Some && 0 <= j
                    < object_file.sections@[p].relocations@.len() && relocation_error(
                    e,
                    archive_view(archive_filename),
                    *object_file,
                    object_file.sections@[p],
                    #[trigger] object_file.sections@[p].relocations@[j],
                ),
        },
{
    let ghost a = archive_view(archive_filename);
    let ghost old_dt = data_table@;
    let ghost old_st = symbol_table@;
    let mut p: usize = 0;
    while p < object_file.sections.len()
        invariant
            a == archive_view(archive_filename),
            old_dt == old(data_table)@,
            old_st == old(symbol_table)@,
            p <= uids@.len(),
            uids@.len() == object_file.sections@.len(),
            uids_distinct(uids@),
            forall|q: int|
                0 <= q < uids@.len() && (#[trigger] uids@[q]) is Some ==> old(data_table).contains(uids@[q]->0)
                    && entry_from_section(old(data_table).entry(uids@[q]->0), object_file.sections@[q]),
            data_table.wf(),
            symbol_table.wf(),
            data_table@.len() == old_dt.len(),
            forall|k: int| 0 <= k < old_dt.len() ==> same_but_relocations(old_dt[k], #[trigger] data_table@[k]),
            forall|k: int|
                0 <= k < old_dt.len() && !uid_before(uids@, p as int, k) ==> #[trigger] data_table@[k] == old_dt[k],
            forall|q: int|
                0 <= q < p && (#[trigger] uids@[q]) is Some ==> relocations_recorded(
                    data_table.entry(uids@[q]->0),
                    a,
                    *object_file,
                    object_file.sections@[q],
                ),
            forall|t: Seq<char>| #[trigger] old_st.contains_key(t) ==> symbol_table@.contains_key(t)
                && symbol_table@[t] == old_st[t],
            forall|t: Seq<char>|
                #[trigger] symbol_table@.contains_key(t) && !old_st.contains_key(t) ==> symbol_table@[t]
                    == SymbolEntry::Unresolved,
            forall|q: int, j: int|
                0 <= q < p && (#[trigger] uids@[q]) is Some && 0 <= j < object_file.sections@[q].relocations@.len()
                    ==> symbol_table@.contains_key(
                    relocation_tag(a, *object_file, #[trigger] object_file.sections@[q].relocations@[j])->0,
                ),
        decreases object_file.sections.len() - p,
    {
        let uid = match uids[p] {
            Some(u) => u,
            None => {
                proof {
                    assert forall|k: int| 0 <= k < old_dt.len() && !uid_before(uids@, p + 1, k)
                        implies #[trigger] data_table@[k] == old_dt[k] by {
                        if uid_before(uids@, p as int, k) {
                            let q = choose|q: int| 0 <= q < p && #[trigger] uids@[q] == Some(UniqueId((k + 1) as u64));
                            assert(uids@[q] == Some(UniqueId((k + 1) as u64)));
                        }
                    }
                }
                p = p + 1;
                continue;
            },
        };
        let section = &object_file.sections[p];
        proof {
            assert(entry_from_section(old(data_table).entry(uid), *section));
        }
        let mut relocations: Vec<RelocationEntry> = Vec::new();
        let mut j: usize = 0;
        let ghost st_before = symbol_table@;
        while j < section.relocations.len()
            invariant
                a == archive_view(archive_filename),
                old_st == old(symbol_table)@,
                old_dt == old(data_table)@,
                p < uids@.len(),
                uids@.len() == object_file.sections@.len(),
                uids@[p as int] == Some(uid),
                data_table.wf(),
                data_table@.len() == old_dt.len(),
                forall|k: int| 0 <= k < old_dt.len() ==> same_but_relocations(old_dt[k], #[trigger] data_table@[k]),
                forall|t: Seq<char>| #[trigger] old_st.contains_key(t) ==> st_before.contains_key(t)
                    && st_before[t] == old_st[t],
                forall|t: Seq<char>|
                    #[trigger] st_before.contains_key(t) && !old_st.contains_key(t) ==> st_before[t]
                        == SymbolEntry::Unresolved,
                section.size <= usize::MAX,
                *section == object_file.sections@[p as int],
                j <= section.relocations@.len(),
                relocations@.len() == j,
                symbol_table.wf(),
                forall|i: int|
                    0 <= i < j ==> recordable(a, *object_file, *section, #[trigger] section.relocations@[i])
                        && entry_from_relocation(relocations@[i], a, *object_file, section.relocations@[i]),
                forall|t: Seq<char>| #[trigger] st_before.contains_key(t) ==> symbol_table@.contains_key(t)
                    && symbol_table@[t] == st_before[t],
                forall|t: Seq<char>|
                    #[trigger] symbol_table@.contains_key(t) && !st_before.contains_key(t) ==> symbol_table@[t]
                        == SymbolEntry::Unresolved,
                forall|i: int|
                    0 <= i < j ==> symbol_table@.contains_key(
                        relocation_tag(a, *object_file, #[trigger] section.relocations@[i])->0,
                    ),
            decreases section.relocations.len() - j,
        {
            let r = &section.relocations[j];
            match record_relocation(archive_filename, object_file, section, r, symbol_table) {
                Ok(e) => {
                    relocations.push(e);
                },
                Err(e) => {
                    proof {
                        assert(uids@[p as int] is Some);
                        assert(relocation_error(e, a, *object_file, object_file.sections@[p as int], object_file.sections@[p as int].relocations@[j as int]));
                    }
                    return Err(e);
                },
            }
            j = j + 1;
        }
        let ghost dt_before = data_table@;
        match data_table.get_mut(&uid) {
            Some(entry) => {
                entry.relocations = relocations;
            },
            None => {
                proof {
                    assert(old(data_table).contains(uid));
                }
                vstd::pervasive::unreached()
            },
        }
        proof {
            assert forall|k: int| 0 <= k < old_dt.len() && !uid_before(uids@, p + 1, k)
                implies #[trigger] data_table@[k] == old_dt[k] by {
                if uid_before(uids@, p as int, k) {
                    let q = choose|q: int| 0 <= q < p && #[trigger] uids@[q] == Some(UniqueId((k + 1) as u64));
                    assert(uids@[q] == Some(UniqueId((k + 1) as u64)));
                }
                assert(uids@[p as int] != Some(UniqueId((k + 1) as u64)));
            }
            assert forall|q: int|
                0 <= q < p + 1 && (#[trigger] uids@[q]) is Some implies relocations_recorded(
                    data_table.entry(uids@[q]->0),
                    a,
                    *object_file,
                    object_file.sections@[q],
                ) by {
                if q < p {
                    assert(uids@[q] != uids@[p as int]);
                    assert(data_table.entry(uids@[q]->0) == dt_before[(uids@[q]->0).0 - 1]);
                }
            }
        }
        p = p + 1;
    }
    Ok(())
}

/// The definitions made by the first `n` objects, in order, with
/// `uidss[i]` the section handles of object `i`.
pub open spec fn all_definitions(
    objects: Seq<InputObject>,
    uidss: Seq<Seq<Option<UniqueId>>>,
    n: nat,
) -> Seq<(Seq<char>, ResolvedSymbol)>
    decreases n,
{
    if n == 0 {
        Seq::empty()
    } else {
        let o = objects[n - 1];
        all_definitions(objects, uidss, (n - 1) as nat) + definitions_upto(
            archive_of(o),
            o.elf,
            uidss[n - 1],
            o.elf.symbols@.len(),
        )
    }
}

pub open spec fn archive_of(o: InputObject) -> Option<Seq<char>> {
    match o.archive {
        Some(a) => Some(a@),
        None => None,
    }
}

/// The number of symbols of the first `n` objects.
pub open spec fn symbols_upto(objects: Seq<InputObject>, n: nat) -> nat
    decreases n,
{
    if n == 0 {
        0
    } else {
        symbols_upto(objects, (n - 1) as nat) + objects[n - 1].elf.symbols@.len()
    }
}

/// Single definition: after defining `defs` in order, every defined tag is
/// resolved; no tag has two non-weak definitions; and where a tag has a
/// non-weak definition, that one is kept (a global overrides a weak one).
pub proof fn lemma_single_definition(
    m: Map<Seq<char>, SymbolEntry>,
    defs: Seq<(Seq<char>, ResolvedSymbol)>,
)
    requires
        define_all(m, defs) is Some,
    ensures
        ({
            let m2 = define_all(m, defs)->0;
            &&& forall|k: int|
                0 <= k < defs.len() ==> m2.contains_key((#[trigger] defs[k]).0) && m2[defs[k].0] is Resolved
            &&& forall|k: int|
                0 <= k < defs.len() && !(#[trigger] defs[k]).1.spec_is_weak() ==> m2[defs[k].0]
                    == SymbolEntry::Resolved(defs[k].1)
            &&& forall|k1: int, k2: int|
                0 <= k1 < k2 < defs.len() && (#[trigger] defs[k1]).0 == (#[trigger] defs[k2]).0
                    ==> defs[k1].1.spec_is_weak() || defs[k2].1.spec_is_weak()
        }),
    decreases defs.len(),
{
    if defs.len() > 0 {
        let prev = defs.drop_last();
        lemma_single_definition(m, prev);
        let m1 = define_all(m, prev)->0;
        let (t, r) = defs.last();
        let m2 = define_all(m, defs)->0;
        assert forall|k: int| 0 <= k < defs.len() implies m2.contains_key((#[trigger] defs[k]).0)
            && m2[defs[k].0] is Resolved by {
            if k < defs.len() - 1 {
                assert(defs[k] == prev[k]);
            }
        }
        assert forall|k: int| 0 <= k < defs.len() && !(#[trigger] defs[k]).1.spec_is_weak() implies m2[defs[k].0]
            == SymbolEntry::Resolved(defs[k].1) by {
            if k < defs.len() - 1 {
                assert(defs[k] == prev[k]);
            }
        }
        assert forall|k1: int, k2: int|
            0 <= k1 < k2 < defs.len() && (#[trigger] defs[k1]).0 == (#[trigger] defs[k2]).0 implies defs[k1].1.spec_is_weak()
                || defs[k2].1.spec_is_weak() by {
            assert(defs[k1] == prev[k1]);
            if k2 < defs.len() - 1 {
                assert(defs[k2] == prev[k2]);
            }
        }
    }
}

/// Defining `d1 + d2` is defining `d1`, then `d2`.
pub proof fn lemma_define_all_append(
    m: Map<Seq<char>, SymbolEntry>,
    d1: Seq<(Seq<char>, ResolvedSymbol)>,
    d2: Seq<(Seq<char>, ResolvedSymbol)>,
)
    ensures
        define_all(m, d1 + d2) == match define_all(m, d1) {
            Some(m1) => define_all(m1, d2),
            None => None,
        },
    decreases d2.len(),
{
    if d2.len() == 0 {
        assert(d1 + d2 =~= d1);
    } else {
        assert((d1 + d2).drop_last() =~= d1 + d2.drop_last());
        lemma_define_all_append(m, d1, d2.drop_last());
    }
}

fn archive_str(archive: &Option<String>) -> (r: Option<&str>)
    ensures
        archive_view(r) == match archive {
            Some(a) => Some(a@),
            None => None::<Seq<char>>,
        },
{
    match archive {
        Some(a) => Some(a.as_str()),
        None => None,
    }
}

/// Some symbol of one of the first `i` objects defines `t` with a non-weak binding.
pub open spec fn defined_before(objects: Seq<InputObject>, i: int, t: Seq<char>) -> bool {
    exists|n: int, j: int|
        0 <= n < i && 0 <= j < objects[n].elf.symbols@.len() && #[trigger] defines_non_weak(
            archive_of(objects[n]),
            objects[n].elf,
            j,
            t,
        )
}

/// Symbol `k` of object `i` is a second non-weak definition of `t`: an
/// earlier object, or an earlier symbol of the same object, made one.
pub open spec fn second_definition(objects: Seq<InputObject>, i: int, k: int, t: Seq<char>) -> bool {
    &&& 0 <= i < objects.len()
    &&& 0 <= k < objects[i].elf.symbols@.len()
    &&& defines_non_weak(archive_of(objects[i]), objects[i].elf, k, t)
    &&& (defined_before(objects, i, t) || exists|j: int|
        0 <= j < k && #[trigger] defines_non_weak(archive_of(objects[i]), objects[i].elf, j, t))
}

/// Every symbol of the first `n` objects that lies in a section can be defined.
pub open spec fn all_definable(objects: Seq<InputObject>, n: int) -> bool {
    forall|i: int, j: int|
        0 <= i < n && 0 <= j < objects[i].elf.symbols@.len() ==> definable(
            archive_of(objects[i]),
            objects[i].elf,
            #[trigger] objects[i].elf.symbols@[j],
        )
}

/// No tag has two non-weak definitions in the first `n` objects.
pub open spec fn no_second_definition(objects: Seq<InputObject>, n: int) -> bool {
    forall|i: int, k: int, t: Seq<char>| 0 <= i < n ==> !#[trigger] second_definition(objects, i, k, t)
}

/// Every relocation of a registered section of the first `n` objects can be recorded.
pub open spec fn all_recordable(objects: Seq<InputObject>, n: int) -> bool {
    forall|i: int, p: int, j: int|
        0 <= i < n && registered(objects[i].elf, p) && 0 <= j < objects[i].elf.sections@[p].relocations@.len()
            ==> recordable(
            archive_of(objects[i]),
            objects[i].elf,
            objects[i].elf.sections@[p],
            #[trigger] objects[i].elf.sections@[p].relocations@[j],
        )
}

/// `e` is what the analysis of `objects` fails with: a symbol that cannot be
/// defined, a second non-weak definition of the tag it names, or a
/// relocation of a registered section that cannot be recorded.
pub open spec fn analysis_error(objects: Seq<InputObject>, e: LinkError) -> bool {
    ||| e matches LinkError::ParseFailure { .. } && !all_definable(objects, objects.len() as int)
    ||| e matches LinkError::MultipleDefinition { tag } && exists|i: int, k: int|
        #[trigger] second_definition(objects, i, k, tag@)
    ||| exists|i: int, p: int, j: int|
        0 <= i < objects.len() && registered(objects[i].elf, p) && 0 <= j
            < objects[i].elf.sections@[p].relocations@.len() && relocation_error(
            e,
            archive_of(objects[i]),
            objects[i].elf,
            objects[i].elf.sections@[p],
            #[trigger] objects[i].elf.sections@[p].relocations@[j],
        )
}

/// Every resolved entry of `m` lies in one of the first `n` registered sections.
pub open spec fn targets_registered(m: Map<Seq<char>, SymbolEntry>, n: nat) -> bool {
    forall|t: Seq<char>|
        #[trigger] m.contains_key(t) && m[t] is Resolved ==> 1 <= m[t]->Resolved_0.target.0 <= n
}

proof fn lemma_define_all_targets(
    m: Map<Seq<char>, SymbolEntry>,
    defs: Seq<(Seq<char>, ResolvedSymbol)>,
    n: nat,
)
    requires
        targets_registered(m, n),
        forall|k: int| 0 <= k < defs.len() ==> 1 <= (#[trigger] defs[k]).1.target.0 <= n,
        define_all(m, defs) is Some,
    ensures
        targets_registered(define_all(m, defs)->0, n),
    decreases defs.len(),
{
    if defs.len() > 0 {
        let prev = defs.drop_last();
        assert forall|k: int| 0 <= k < prev.len() implies 1 <= (#[trigger] prev[k]).1.target.0 <= n by {
            assert(prev[k] == defs[k]);
        }
        lemma_define_all_targets(m, prev, n);
        assert(1 <= defs[defs.len() - 1].1.target.0 <= n);
    }
}

proof fn lemma_definition_targets(
    archive: Option<Seq<char>>,
    elf: ElfObjectFile,
    uids: Seq<Option<UniqueId>>,
    count: nat,
    n: nat,
)
    requires
        count <= elf.symbols.len(),
        forall|j: int|
            0 <= j < count ==> match (#[trigger] elf.symbols[j]).section {
                ElfSymbolSection::Section(i) => uids[elf.section_position(i)->0] is Some && 1
                    <= (uids[elf.section_position(i)->0]->0).0 <= n,
                _ => true,
            },
    ensures
        forall|k: int|
            0 <= k < definitions_upto(archive, elf, uids, count).len() ==> 1 <= (
            #[trigger] definitions_upto(archive, elf, uids, count)[k]).1.target.0 <= n,
    decreases count,
{
    if count > 0 {
        lemma_definition_targets(archive, elf, uids, (count - 1) as nat, n);
        let _ = elf.symbols[count - 1];
    }
}

/// Every relocation of every entry targets a tag that the symbol table holds.
pub open spec fn targets_known(st: Map<Seq<char>, SymbolEntry>, dt: Seq<DataEntry>) -> bool {
    forall|k: int, j: int|
        0 <= k < dt.len() && 0 <= j < dt[k].relocations@.len() ==> st.contains_key(
            (#[trigger] dt[k].relocations@[j]).target@,
        )
}

/// `st` and `dt` are what analysing `objects` produces: every condition of
/// success holds, every entry is well formed, and the table resolves exactly
/// what the fold of every definition resolves, every other tag in it being
/// an unresolved reference.
pub open spec fn analyzed(objects: Seq<InputObject>, st: Map<Seq<char>, SymbolEntry>, dt: Seq<DataEntry>) -> bool {
    &&& all_definable(objects, objects.len() as int)
    &&& no_second_definition(objects, objects.len() as int)
    &&& all_recordable(objects, objects.len() as int)
    &&& entries_wf(dt)
    &&& targets_known(st, dt)
    &&& targets_registered(st, dt.len())
    &&& exists|uidss: Seq<Seq<Option<UniqueId>>>|
        #[trigger] define_all(Map::empty(), all_definitions(objects, uidss, objects.len())) is Some && {
            let m = define_all(Map::empty(), all_definitions(objects, uidss, objects.len()))->0;
            &&& forall|t: Seq<char>| #[trigger] m.contains_key(t) ==> st.contains_key(t) && st[t] == m[t]
            &&& forall|t: Seq<char>|
                #[trigger] st.contains_key(t) && !m.contains_key(t) ==> st[t] == SymbolEntry::Unresolved
        }
}

proof fn lemma_defined_before_step(objects: Seq<InputObject>, i: int, t: Seq<char>)
    requires
        0 <= i < objects.len(),
    ensures
        defined_before(objects, i + 1, t) <==> defined_before(objects, i, t) || exists|j: int|
            0 <= j < objects[i].elf.symbols@.len() && #[trigger] defines_non_weak(
                archive_of(objects[i]),
                objects[i].elf,
                j,
                t,
            ),
{
    if defined_before(objects, i + 1, t) {
        let (n, j) = choose|n: int, j: int|
            0 <= n < i + 1 && 0 <= j < objects[n].elf.symbols@.len() && #[trigger] defines_non_weak(
                archive_of(objects[n]),
                objects[n].elf,
                j,
                t,
            );
        if n < i {
            assert(defined_before(objects, i, t));
        }
    }
    if defined_before(objects, i, t) {
        let (n, j) = choose|n: int, j: int|
            0 <= n < i && 0 <= j < objects[n].elf.symbols@.len() && #[trigger] defines_non_weak(
                archive_of(objects[n]),
                objects[n].elf,
                j,
                t,
            );
        assert(defines_non_weak(archive_of(objects[n]), objects[n].elf, j, t));
    }
    if exists|j: int| 0 <= j < objects[i].elf.symbols@.len() && #[trigger] defines_non_weak(
        archive_of(objects[i]),
        objects[i].elf,
        j,
        t,
    ) {
        let j = choose|j: int| 0 <= j < objects[i].elf.symbols@.len() && #[trigger] defines_non_weak(
            archive_of(objects[i]),
            objects[i].elf,
            j,
            t,
        );
        assert(defines_non_weak(archive_of(objects[i]), objects[i].elf, j, t));
    }
}

/// Runs both passes over every object: first all definitions, then all
/// relocations. The symbol table then resolves exactly what the fold of
/// every definition, in input order, resolves; every other tag it holds is
/// a reference that nothing defines.
pub fn analyze_objects(
    objects: &Vec<InputObject>,
    data_table: &mut DataTable,
    symbol_table: &mut SymbolTable,
) -> (r: Result<(), LinkError>)
    requires
        old(data_table).wf(),
        old(data_table)@.len() == 0,
        old(symbol_table).wf(),
        old(symbol_table)@ == Map::<Seq<char>, SymbolEntry>::empty(),
        symbols_upto(objects@, objects@.len()) < u64::MAX,
    ensures
        final(data_table).wf(),
        final(symbol_table).wf(),
        r is Ok <==> all_definable(objects@, objects@.len() as int) && no_second_definition(
            objects@,
            objects@.len() as int,
        ) && all_recordable(objects@, objects@.len() as int),
        r matches Err(e) ==> analysis_error(objects@, e),
        r is Ok ==> analyzed(objects@, final(symbol_table)@, final(data_table)@),
{
    let ghost mut uidss: Seq<Seq<Option<UniqueId>>> = Seq::empty();
    let mut all_uids: Vec<Vec<Option<UniqueId>>> = Vec::new();
    let mut i: usize = 0;
    while i < objects.len()
        invariant
            i <= objects@.len(),
            symbols_upto(objects@, objects@.len()) < u64::MAX,
            data_table.wf(),
            symbol_table.wf(),
            all_uids@.len() == i,
            uidss.len() == i,
            forall|n: int| 0 <= n < i ==> (#[trigger] all_uids@[n])@ == uidss[n],
            data_table@.len() <= symbols_upto(objects@, i as nat),
            entries_wf(data_table@),
            define_all(Map::empty(), all_definitions(objects@, uidss, i as nat)) == Some(symbol_table@),
            forall|k: int| 0 <= k < data_table@.len() ==> (#[trigger] data_table@[k]).relocations@.len() == 0,
            targets_registered(symbol_table@, data_table@.len()),
            forall|t: Seq<char>| #[trigger] non_weak_entry(symbol_table@, t) <==> defined_before(objects@, i as int, t),
            all_definable(objects@, i as int),
            no_second_definition(objects@, i as int),
            forall|n: int, q: int|
                0 <= n < i && 0 <= q < uidss[n].len() ==> ((#[trigger] uidss[n][q]) is Some <==> registered(
                    objects@[n].elf,
                    q,
                )),
            forall|n: int|
                0 <= n < i ==> uids_distinct(#[trigger] uidss[n]) && uidss[n].len()
                    == objects@[n].elf.sections@.len(),
            forall|n: int, q: int|
                0 <= n < i && 0 <= q < uidss[n].len() && (#[trigger] uidss[n][q]) is Some
                    ==> data_table.contains(uidss[n][q]->0) && entry_from_section(
                    data_table.entry(uidss[n][q]->0),
                    objects@[n].elf.sections@[q],
                ),
        decreases objects.len() - i,
    {
        let input = &objects[i];
        let ghost dt0 = data_table@;
        let ghost st0 = symbol_table@;
        proof {
            lemma_symbols_upto_monotone(objects@, (i + 1) as nat, objects@.len());
        }
        let archive = archive_str(&input.archive);
        assert(archive_view(archive) == archive_of(*input));
        let uids = match parse_firstpass(archive, &input.elf, data_table, symbol_table) {
            Ok(u) => u,
            Err(e) => {
                proof {
                    match &e {
                        LinkError::MultipleDefinition { tag } => {
                            let k = choose|k: int| 0 <= k < input.elf.symbols@.len() && #[trigger] conflict_at(st0, archive_of(*input), input.elf, k, tag@);
                            assert(non_weak_entry(st0, tag@) == defined_before(objects@, i as int, tag@));
                            assert(second_definition(objects@, i as int, k, tag@));
                        },
                        _ => {
                            let j = choose|j: int| 0 <= j < input.elf.symbols@.len() && !definable(archive_of(*input), input.elf, #[trigger] input.elf.symbols@[j]);
                            assert(!definable(archive_of(objects@[i as int]), objects@[i as int].elf, objects@[i as int].elf.symbols@[j]));
                        },
                    }
                }
                return Err(e);
            },
        };
        proof {
            assert forall|t: Seq<char>| #[trigger] non_weak_entry(symbol_table@, t) <==> defined_before(objects@, i + 1, t) by {
                lemma_defined_before_step(objects@, i as int, t);
                assert(non_weak_entry(st0, t) == defined_before(objects@, i as int, t));
            }
            assert forall|n: int, k: int, t: Seq<char>| 0 <= n < i + 1 implies !#[trigger] second_definition(objects@, n, k, t) by {
                if n == i && second_definition(objects@, n, k, t) {
                    assert(non_weak_entry(st0, t) == defined_before(objects@, i as int, t));
                    assert(conflict_at(st0, archive_of(*input), input.elf, k, t));
                }
            }
        }
        proof {
            let d = definitions_upto(archive_of(*input), input.elf, uids@, input.elf.symbols@.len());
            assert(all_definitions(objects@, uidss.push(uids@), (i + 1) as nat) == all_definitions(objects@, uidss, i as nat) + d) by {
                lemma_all_definitions_stable(objects@, uidss, uidss.push(uids@), i as nat);
            }
            lemma_define_all_append(Map::empty(), all_definitions(objects@, uidss, i as nat), d);
            lemma_definition_targets(archive_of(*input), input.elf, uids@, input.elf.symbols@.len(), data_table@.len());
            assert(targets_registered(st0, data_table@.len()));
            lemma_define_all_targets(st0, d, data_table@.len());
            assert forall|k: int| 0 <= k < data_table@.len() implies (#[trigger] data_table@[k]).wf()
                && data_table@[k].relocations@.len() == 0 by {
                if k < dt0.len() {
                    assert(data_table@[k] == dt0[k]);
                }
            }
        }
        all_uids.push(uids);
        proof {
            uidss = uidss.push(all_uids@[i as int]@);
            assert forall|n: int, q: int|
                0 <= n < i + 1 && 0 <= q < uidss[n].len() && (#[trigger] uidss[n][q]) is Some
                    implies data_table.contains(uidss[n][q]->0) && entry_from_section(
                    data_table.entry(uidss[n][q]->0),
                    objects@[n].elf.sections@[q],
                ) by {
                if n < i {
                    assert(dt0[(uidss[n][q]->0).0 - 1] == data_table@[(uidss[n][q]->0).0 - 1]);
                }
            }
        }
        i = i + 1;
    }
    let ghost m = symbol_table@;
    let mut i: usize = 0;
    while i < objects.len()
        invariant
            i <= objects@.len(),
            data_table.wf(),
            symbol_table.wf(),
            all_uids@.len() == objects@.len(),
            uidss.len() == objects@.len(),
            forall|n: int| 0 <= n < objects@.len() ==> (#[trigger] all_uids@[n])@ == uidss[n],
            entries_wf(data_table@),
            forall|n: int|
                0 <= n < objects@.len() ==> uids_distinct(#[trigger] uidss[n]) && uidss[n].len()
                    == objects@[n].elf.sections@.len(),
            forall|n: int, q: int|
                0 <= n < objects@.len() && 0 <= q < uidss[n].len() && (#[trigger] uidss[n][q]) is Some
                    ==> data_table.contains(uidss[n][q]->0) && entry_from_section(
                    data_table.entry(uidss[n][q]->0),
                    objects@[n].elf.sections@[q],
                ),
            define_all(Map::empty(), all_definitions(objects@, uidss, objects@.len())) == Some(m),
            all_definable(objects@, objects@.len() as int),
            no_second_definition(objects@, objects@.len() as int),
            all_recordable(objects@, i as int),
            targets_known(symbol_table@, data_table@),
            targets_registered(symbol_table@, data_table@.len()),
            forall|n: int, q: int|
                0 <= n < objects@.len() && 0 <= q < uidss[n].len() ==> ((#[trigger] uidss[n][q]) is Some
                    <==> registered(objects@[n].elf, q)),
            forall|t: Seq<char>| #[trigger] m.contains_key(t) ==> symbol_table@.contains_key(t)
                && symbol_table@[t] == m[t],
            forall|t: Seq<char>|
                #[trigger] symbol_table@.contains_key(t) && !m.contains_key(t) ==> symbol_table@[t]
                    == SymbolEntry::Unresolved,
        decreases objects.len() - i,
    {
        let input = &objects[i];
        let ghost dt0 = data_table@;
        let ghost st0 = symbol_table@;
        let ghost u = uidss[i as int];
        proof {
            assert(all_uids@[i as int]@ == u);
            assert forall|q: int| 0 <= q < u.len() && (#[trigger] u[q]) is Some implies entry_from_section(
                dt0[(u[q]->0).0 - 1],
                input.elf.sections@[q],
            ) by {
                assert(uidss[i as int][q] is Some);
            }
        }
        let archive = archive_str(&input.archive);
        assert(archive_view(archive) == archive_of(*input));
        match parse_secondpass(archive, &input.elf, &all_uids[i], data_table, symbol_table) {
            Ok(()) => {},
            Err(e) => {
                proof {
                    let (p, j) = choose|p: int, j: int|
                        0 <= p < u.len() && (#[trigger] all_uids@[i as int]@[p]) is Some && 0 <= j
                            < input.elf.sections@[p].relocations@.len() && relocation_error(
                            e,
                            archive_of(*input),
                            input.elf,
                            input.elf.sections@[p],
                            #[trigger] input.elf.sections@[p].relocations@[j],
                        );
                    assert(uidss[i as int][p] is Some);
                    assert(registered(objects@[i as int].elf, p));
                    assert(relocation_error(
                        e,
                        archive_of(objects@[i as int]),
                        objects@[i as int].elf,
                        objects@[i as int].elf.sections@[p],
                        objects@[i as int].elf.sections@[p].relocations@[j],
                    ));
                    assert(!all_recordable(objects@, objects@.len() as int));
                }
                return Err(e);
            },
        }
        proof {
            assert forall|k: int, j: int|
                0 <= k < data_table@.len() && 0 <= j < data_table@[k].relocations@.len() implies symbol_table@.contains_key(
                    (#[trigger] data_table@[k].relocations@[j]).target@,
                ) by {
                data_table.lemma_len_bound();
                if uid_before(u, u.len() as int, k) {
                    let q = choose|q: int| 0 <= q < u.len() && #[trigger] u[q] == Some(UniqueId((k + 1) as u64));
                    assert(all_uids@[i as int]@[q] is Some);
                    assert((u[q]->0).0 - 1 == k);
                    let sec = input.elf.sections@[q];
                    assert(relocations_recorded(data_table.entry(u[q]->0), archive_of(*input), input.elf, sec));
                    assert(recordable(archive_of(*input), input.elf, sec, sec.relocations@[j]));
                    assert(entry_from_relocation(data_table@[k].relocations@[j], archive_of(*input), input.elf, sec.relocations@[j]));
                    assert(symbol_table@.contains_key(relocation_tag(archive_of(*input), input.elf, sec.relocations@[j])->0));
                } else {
                    assert(data_table@[k] == dt0[k]);
                    assert(st0.contains_key(dt0[k].relocations@[j].target@));
                }
            }
            assert forall|n: int, p: int, j: int|
                0 <= n < i + 1 && registered(objects@[n].elf, p) && 0 <= j < objects@[n].elf.sections@[p].relocations@.len()
                    implies recordable(
                    archive_of(objects@[n]),
                    objects@[n].elf,
                    objects@[n].elf.sections@[p],
                    #[trigger] objects@[n].elf.sections@[p].relocations@[j],
                ) by {
                if n == i {
                    assert(uidss[n][p] is Some);
                    assert(all_uids@[i as int]@[p] is Some);
                    assert(relocations_recorded(
                        data_table.entry(u[p]->0),
                        archive_of(*input),
                        input.elf,
                        input.elf.sections@[p],
                    ));
                }
            }
        }
        proof {
            assert forall|k: int| 0 <= k < data_table@.len() implies (#[trigger] data_table@[k]).wf() by {
                assert(dt0[k].wf());
                assert(same_but_relocations(dt0[k], data_table@[k]));
                if uid_before(u, u.len() as int, k) {
                    let q = choose|q: int| 0 <= q < u.len() && #[trigger] u[q] == Some(UniqueId((k + 1) as u64));
                    assert(u[q] is Some);
                    assert(uidss[i as int][q] is Some);
                    assert(all_uids@[i as int]@[q] is Some);
                    assert(archive_view(archive) == archive_of(*input));
                    let sec = input.elf.sections@[q];
                    data_table.lemma_len_bound();
                    assert((u[q]->0).0 - 1 == k);
                    assert(entry_from_section(dt0[k], sec));
                    assert(relocations_recorded(data_table.entry(u[q]->0), archive_view(archive), input.elf, sec));
                    assert(relocations_recorded(data_table@[k], archive_of(*input), input.elf, sec));
                    assert forall|j: int| 0 <= j < data_table@[k].relocations@.len() implies #[trigger] data_table@[k].relocations@[j].offset
                        + data_table@[k].relocations@[j].size <= data_table@[k].span() by {
                        assert(recordable(archive_of(*input), input.elf, sec, sec.relocations@[j]));
                    }
                } else {
                    assert(data_table@[k] == dt0[k]);
                }
            }
            assert forall|n: int, q: int|
                0 <= n < objects@.len() && 0 <= q < uidss[n].len() && (#[trigger] uidss[n][q]) is Some
                    implies data_table.contains(uidss[n][q]->0) && entry_from_section(
                    data_table.entry(uidss[n][q]->0),
                    objects@[n].elf.sections@[q],
                ) by {
                assert(same_but_relocations(dt0[(uidss[n][q]->0).0 - 1], data_table@[(uidss[n][q]->0).0 - 1]));
            }
        }
        i = i + 1;
    }
    Ok(())
}

pub proof fn lemma_symbols_upto_monotone(objects: Seq<InputObject>, a: nat, b: nat)
    requires
        a <= b,
    ensures
        symbols_upto(objects, a) <= symbols_upto(objects, b),
    decreases b - a,
{
    if a < b {
        lemma_symbols_upto_monotone(objects, a, (b - 1) as nat);
    }
}

proof fn lemma_all_definitions_stable(
    objects: Seq<InputObject>,
    u1: Seq<Seq<Option<UniqueId>>>,
    u2: Seq<Seq<Option<UniqueId>>>,
    n: nat,
)
    requires
        n <= u1.len(),
        n <= u2.len(),
        forall|k: int| 0 <= k < n ==> #[trigger] u1[k] == u2[k],
    ensures
        all_definitions(objects, u1, n) == all_definitions(objects, u2, n),
    decreases n,
{
    if n > 0 {
        lemma_all_definitions_stable(objects, u1, u2, (n - 1) as nat);
        assert(u1[n - 1] == u2[n - 1]);
    }
}

} // verus!
