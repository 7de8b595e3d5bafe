use vstd::prelude::*;
use vstd::string::StringExecFns;
use object::{Object, ObjectSection, ObjectSymbol};


use crate::error::LinkError;
use crate::object_file::{
    ElfObjectFile, ElfRelocation, ElfRelocationKind, ElfRelocationTarget, ElfSection, ElfSymbol,
    ElfSymbolSection,
};

verus! {

#[verifier::external_type_specification]
#[verifier::external_body]
pub struct ExRelocation(object::Relocation);

/// What `Object::symbols` lists: the index of every symbol, in table order.
pub uninterp spec fn elf_symbol_indices(data: Seq<u8>) -> Option<Seq<usize>>;

/// What `Object::sections` lists: the header index of every section, in table order.
pub uninterp spec fn elf_section_indices(data: Seq<u8>) -> Option<Seq<usize>>;

/// What `ObjectSymbol::name` reads for a symbol.
pub uninterp spec fn elf_symbol_name(data: Seq<u8>, index: usize) -> Option<Seq<char>>;

/// The `st_info` byte that `ObjectSymbol::flags` reads for a symbol.
pub uninterp spec fn elf_symbol_st_info(data: Seq<u8>, index: usize) -> Option<u8>;

/// Where `ObjectSymbol::section` says a symbol is defined.
pub uninterp spec fn elf_symbol_section(data: Seq<u8>, index: usize) -> Option<ElfSymbolSection>;

/// The value `ObjectSymbol::address` reads for a symbol.
pub uninterp spec fn elf_symbol_address(data: Seq<u8>, index: usize) -> Option<u64>;

/// What `ObjectSection::name` reads for a section.
pub uninterp spec fn elf_section_name(data: Seq<u8>, index: usize) -> Option<Seq<char>>;

/// The `sh_flags` that `ObjectSection::flags` reads for a section.
pub uninterp spec fn elf_section_flags(data: Seq<u8>, index: usize) -> Option<u64>;

/// The bytes `ObjectSection::data` reads for a section.
pub uninterp spec fn elf_section_data(data: Seq<u8>, index: usize) -> Option<Seq<u8>>;

/// The size `ObjectSection::size` reads for a section.
pub uninterp spec fn elf_section_size(data: Seq<u8>, index: usize) -> Option<u64>;

/// The alignment `ObjectSection::align` reads for a section.
pub uninterp spec fn elf_section_align(data: Seq<u8>, index: usize) -> Option<u64>;

/// Relies on `object::Relocation::size`: the width of the patched place in bits.
pub assume_specification[ object::Relocation::size ](r: &object::Relocation) -> u8;

/// Relies on `object::File::parse`, `Object::symbols` and
/// `ObjectSymbol::index`: the symbol-table index of every symbol, in table
/// order, where `data` decodes as an object.
#[verifier::external_body]
fn symbol_indices(data: &[u8]) -> (r: Option<Vec<usize>>)
    ensures
        match r {
            Some(v) => elf_symbol_indices(data@) == Some(v@),
            None => elf_symbol_indices(data@) is None,
        },
{
    match object::File::parse(data) {
        Ok(file) => Some(file.symbols().map(|s| s.index().0).collect()),
        Err(_) => None,
    }
}

/// Relies on `object::File::parse`, `Object::symbol_by_index` and `ObjectSymbol::name`.
#[verifier::external_body]
fn symbol_name(data: &[u8], index: usize) -> (r: Option<String>)
    ensures
        match r {
            Some(v) => elf_symbol_name(data@, index) == Some(v@),
            None => elf_symbol_name(data@, index) is None,
        },
{
    let file = match object::File::parse(data) {
        Ok(file) => file,
        Err(_) => return None,
    };
    match file.symbol_by_index(object::SymbolIndex(index)) {
        Ok(s) => match s.name() {
            Ok(n) => Some(n.to_owned()),
            Err(_) => None,
        },
        Err(_) => None,
    }
}

/// Relies on `object::File::parse`, `Object::symbol_by_index` and `ObjectSymbol::flags`: the ELF `st_info` byte.
#[verifier::external_body]
fn symbol_st_info(data: &[u8], index: usize) -> (r: Option<u8>)
    ensures
        match r {
            Some(v) => elf_symbol_st_info(data@, index) == Some(v),
            None => elf_symbol_st_info(data@, index) is None,
        },
{
    let file = match object::File::parse(data) {
        Ok(file) => file,
        Err(_) => return None,
    };
    match file.symbol_by_index(object::SymbolIndex(index)) {
        Ok(s) => match s.flags() {
            object::SymbolFlags::Elf { st_info, .. } => Some(st_info),
            _ => None,
        },
        Err(_) => None,
    }
}

/// Relies on `object::File::parse`, `Object::symbol_by_index` and `ObjectSymbol::section`.
#[verifier::external_body]
fn symbol_section(data: &[u8], index: usize) -> (r: Option<ElfSymbolSection>)
    ensures
        match r {
            Some(v) => elf_symbol_section(data@, index) == Some(v),
            None => elf_symbol_section(data@, index) is None,
        },
{
    let file = match object::File::parse(data) {
        Ok(file) => file,
        Err(_) => return None,
    };
    match file.symbol_by_index(object::SymbolIndex(index)) {
        Ok(s) => match s.section() {
            object::SymbolSection::Undefined => Some(ElfSymbolSection::Undefined),
            object::SymbolSection::Section(i) => Some(ElfSymbolSection::Section(i.0)),
            _ => Some(ElfSymbolSection::Other),
        },
        Err(_) => None,
    }
}

/// Relies on `object::File::parse`, `Object::symbol_by_index` and `ObjectSymbol::address`: `st_value`.
#[verifier::external_body]
fn symbol_address(data: &[u8], index: usize) -> (r: Option<u64>)
    ensures
        match r {
            Some(v) => elf_symbol_address(data@, index) == Some(v),
            None => elf_symbol_address(data@, index) is None,
        },
{
    let file = match object::File::parse(data) {
        Ok(file) => file,
        Err(_) => return None,
    };
    match file.symbol_by_index(object::SymbolIndex(index)) {
        Ok(s) => Some(s.address()),
        Err(_) => None,
    }
}

/// Relies on `object::File::parse`, `Object::sections` and
/// `ObjectSection::index`: the header index of every section, in table
/// order, where `data` decodes as an object.
#[verifier::external_body]
fn section_indices(data: &[u8]) -> (r: Option<Vec<usize>>)
    ensures
        match r {
            Some(v) => elf_section_indices(data@) == Some(v@),
            None => elf_section_indices(data@) is None,
        },
{
    match object::File::parse(data) {
        Ok(file) => Some(file.sections().map(|s| s.index().0).collect()),
        Err(_) => None,
    }
}

/// Relies on `object::File::parse`, `Object::section_by_index` and `ObjectSection::name`.
#[verifier::external_body]
fn section_name(data: &[u8], index: usize) -> (r: Option<String>)
    ensures
        match r {
            Some(v) => elf_section_name(data@, index) == Some(v@),
            None => elf_section_name(data@, index) is None,
        },
{
    let file = match object::File::parse(data) {
        Ok(file) => file,
        Err(_) => return None,
    };
    match file.section_by_index(object::SectionIndex(index)) {
        Ok(s) => match s.name() {
            Ok(n) => Some(n.to_owned()),
            Err(_) => None,
        },
        Err(_) => None,
    }
}

/// Relies on `object::File::parse`, `Object::section_by_index` and `ObjectSection::flags`: `sh_flags`.
#[verifier::external_body]
fn section_flags(data: &[u8], index: usize) -> (r: Option<u64>)
    ensures
        match r {
            Some(v) => elf_section_flags(data@, index) == Some(v),
            None => elf_section_flags(data@, index) is None,
        },
{
    let file = match object::File::parse(data) {
        Ok(file) => file,
        Err(_) => return None,
    };
    match file.section_by_index(object::SectionIndex(index)) {
        Ok(s) => match s.flags() {
            object::SectionFlags::Elf { sh_flags } => Some(sh_flags),
            _ => None,
        },
        Err(_) => None,
    }
}

/// Relies on `object::File::parse`, `Object::section_by_index` and `ObjectSection::data`: the
/// section's bytes in the file.
#[verifier::external_body]
fn section_data(data: &[u8], index: usize) -> (r: Option<Vec<u8>>)
    ensures
        match r {
            Some(v) => elf_section_data(data@, index) == Some(v@),
            None => elf_section_data(data@, index) is None,
        },
{
    let file = match object::File::parse(data) {
        Ok(file) => file,
        Err(_) => return None,
    };
    match file.section_by_index(object::SectionIndex(index)) {
        Ok(s) => match s.data() {
            Ok(d) => Some(d.to_vec()),
            Err(_) => None,
        },
        Err(_) => None,
    }
}

/// Relies on `object::File::parse`, `Object::section_by_index` and `ObjectSection::size`: `sh_size`.
#[verifier::external_body]
fn section_size(data: &[u8], index: usize) -> (r: Option<u64>)
    ensures
        match r {
            Some(v) => elf_section_size(data@, index) == Some(v),
            None => elf_section_size(data@, index) is None,
        },
{
    let file = match object::File::parse(data) {
        Ok(file) => file,
        Err(_) => return None,
    };
    match file.section_by_index(object::SectionIndex(index)) {
        Ok(s) => Some(s.size()),
        Err(_) => None,
    }
}

/// Relies on `object::File::parse`, `Object::section_by_index` and `ObjectSection::align`: `sh_addralign`.
#[verifier::external_body]
fn section_align(data: &[u8], index: usize) -> (r: Option<u64>)
    ensures
        match r {
            Some(v) => elf_section_align(data@, index) == Some(v),
            None => elf_section_align(data@, index) is None,
        },
{
    let file = match object::File::parse(data) {
        Ok(file) => file,
        Err(_) => return None,
    };
    match file.section_by_index(object::SectionIndex(index)) {
        Ok(s) => Some(s.align()),
        Err(_) => None,
    }
}

/// Relies on `object::File::parse`, `Object::section_by_index` and `ObjectSection::relocations`:
/// the section's relocations, each with the offset it patches.
#[verifier::external_body]
fn section_relocations(data: &[u8], index: usize) -> (r: Option<Vec<(u64, object::Relocation)>>) {
    let file = match object::File::parse(data) {
        Ok(file) => file,
        Err(_) => return None,
    };
    match file.section_by_index(object::SectionIndex(index)) {
        Ok(s) => Some(s.relocations().collect()),
        Err(_) => None,
    }
}

/// Relies on `object::Relocation::kind`: which computation the relocation asks for.
#[verifier::external_body]
fn get_relocation_kind(r: &object::Relocation) -> (k: ElfRelocationKind) {
    match r.kind() {
        object::RelocationKind::Absolute => ElfRelocationKind::Absolute,
        object::RelocationKind::Relative => ElfRelocationKind::Relative,
        object::RelocationKind::PltRelative => ElfRelocationKind::PltRelative,
        _ => ElfRelocationKind::Unsupported,
    }
}

/// Relies on `object::Relocation::target`: what the relocation refers to.
#[verifier::external_body]
fn get_target_symbol(r: &object::Relocation) -> (t: ElfRelocationTarget) {
    match r.target() {
        object::RelocationTarget::Symbol(i) => ElfRelocationTarget::Symbol(i.0),
        object::RelocationTarget::Section(i) => ElfRelocationTarget::Section(i.0),
        _ => ElfRelocationTarget::Absolute,
    }
}

pub open spec fn bytes_or_empty(o: Option<Seq<u8>>) -> Seq<u8> {
    match o {
        Some(v) => v,
        None => Seq::empty(),
    }
}

/// The fields of the section with header index `index` can be read.
pub open spec fn section_readable(data: Seq<u8>, index: usize) -> bool {
    &&& elf_section_flags(data, index) is Some
    &&& elf_section_size(data, index) is Some
    &&& elf_section_align(data, index) is Some
}

/// The fields of the symbol with index `index` can be read.
pub open spec fn symbol_readable(data: Seq<u8>, index: usize) -> bool {
    &&& elf_symbol_st_info(data, index) is Some
    &&& elf_symbol_section(data, index) is Some
    &&& elf_symbol_address(data, index) is Some
}

pub open spec fn sections_readable(data: Seq<u8>) -> bool {
    &&& elf_section_indices(data) is Some
    &&& forall|k: int|
        0 <= k < elf_section_indices(data)->0.len() ==> #[trigger] section_readable(
            data,
            elf_section_indices(data)->0[k],
        )
}

pub open spec fn symbols_readable(data: Seq<u8>) -> bool {
    &&& elf_symbol_indices(data) is Some
    &&& forall|k: int|
        0 <= k < elf_symbol_indices(data)->0.len() ==> #[trigger] symbol_readable(
            data,
            elf_symbol_indices(data)->0[k],
        )
}

/// `data` decodes as an object whose every section and symbol can be read.
pub open spec fn elf_parses(data: Seq<u8>) -> bool {
    sections_readable(data) && symbols_readable(data)
}

/// The name of a section whose name cannot be read: `section#{position}`.
pub open spec fn fallback_name(position: int) -> Seq<char> {
    seq!['s', 'e', 'c', 't', 'i', 'o', 'n', '#'] + crate::naming::decimal(position as nat)
}

/// `s` is the view of the section with header index `index`, at `position`
/// in the section table.
pub open spec fn section_describes(s: ElfSection, data: Seq<u8>, index: usize, position: int) -> bool {
    &&& s.index == index
    &&& elf_section_flags(data, index) == Some(s.flags)
    &&& elf_section_size(data, index) == Some(s.size)
    &&& elf_section_align(data, index) == Some(s.alignment)
    &&& s.name@ == match elf_section_name(data, index) {
        Some(n) => n,
        None => fallback_name(position),
    }
    &&& s.data@ == bytes_or_empty(elf_section_data(data, index))
}

/// `s` is the view of the symbol with index `index`.
pub open spec fn symbol_describes(s: ElfSymbol, data: Seq<u8>, index: usize) -> bool {
    &&& s.index == index
    &&& elf_symbol_st_info(data, index) == Some(s.st_info)
    &&& elf_symbol_section(data, index) == Some(s.section)
    &&& elf_symbol_address(data, index) == Some(s.offset)
    &&& match s.name {
        Some(n) => elf_symbol_name(data, index) == Some(n@),
        None => elf_symbol_name(data, index) is None,
    }
}

pub open spec fn sections_describe(v: Seq<ElfSection>, data: Seq<u8>) -> bool {
    elf_section_indices(data) matches Some(ix) && v.len() == ix.len() && forall|k: int|
        0 <= k < ix.len() ==> section_describes(#[trigger] v[k], data, ix[k], k)
}

pub open spec fn symbols_describe(v: Seq<ElfSymbol>, data: Seq<u8>) -> bool {
    elf_symbol_indices(data) matches Some(ix) && v.len() == ix.len() && forall|k: int|
        0 <= k < ix.len() ==> symbol_describes(#[trigger] v[k], data, ix[k])
}

/// `elf` is the typed view of `data`; its relocations are what the
/// object crate lists.
pub open spec fn describes(elf: ElfObjectFile, data: Seq<u8>) -> bool {
    sections_describe(elf.sections@, data) && symbols_describe(elf.symbols@, data)
}

fn parse_failure(filename: &String) -> (r: LinkError)
    ensures
        r matches LinkError::ParseFailure { .. },
{
    LinkError::ParseFailure { file: filename.clone() }
}

/// The relocations of the section with header index `index`.
fn parse_sections_relocations(data: &[u8], index: usize) -> (r: Vec<ElfRelocation>) {
    let mut relocations: Vec<ElfRelocation> = Vec::new();
    let raw = match section_relocations(data, index) {
        Some(raw) => raw,
        None => {
            return relocations;
        },
    };
    let mut k: usize = 0;
    while k < raw.len()
        invariant
            k <= raw@.len(),
        decreases raw.len() - k,
    {
        let (offset, relocation) = &raw[k];
        relocations.push(
            ElfRelocation {
                target: get_target_symbol(relocation),
                size: relocation.size(),
                offset: *offset,
                kind: get_relocation_kind(relocation),
            },
        );
        k = k + 1;
    }
    relocations
}

/// The typed view of every section.
fn parse_sections_without_relocations(data: &[u8], filename: &String) -> (r: Result<
    Vec<ElfSection>,
    LinkError,
>)
    ensures
        r matches Err(e) ==> e matches LinkError::ParseFailure { .. },
        r is Ok <==> sections_readable(data@),
        r matches Ok(v) ==> sections_describe(v@, data@),
{
    let indices = match section_indices(data) {
        Some(i) => i,
        None => {
            return Err(parse_failure(filename));
        },
    };
    let mut sections: Vec<ElfSection> = Vec::new();
    let mut k: usize = 0;
    while k < indices.len()
        invariant
            k <= indices@.len(),
            elf_section_indices(data@) == Some(indices@),
            sections@.len() == k,
            forall|q: int| 0 <= q < k ==> section_readable(data@, #[trigger] indices@[q]),
            forall|q: int| 0 <= q < k ==> section_describes(#[trigger] sections@[q], data@, indices@[q], q),
        decreases indices.len() - k,
    {
        let index = indices[k];
        let flags = match section_flags(data, index) {
            Some(f) => f,
            None => {
                assert(indices@[k as int] == index);
                assert(!section_readable(data@, elf_section_indices(data@)->0[k as int]));
                assert(!sections_readable(data@));
                return Err(parse_failure(filename));
            },
        };
        let size = match section_size(data, index) {
            Some(s) => s,
            None => {
                assert(indices@[k as int] == index);
                assert(!section_readable(data@, elf_section_indices(data@)->0[k as int]));
                assert(!sections_readable(data@));
                return Err(parse_failure(filename));
            },
        };
        let alignment = match section_align(data, index) {
            Some(a) => a,
            None => {
                assert(indices@[k as int] == index);
                assert(!section_readable(data@, elf_section_indices(data@)->0[k as int]));
                assert(!sections_readable(data@));
                return Err(parse_failure(filename));
            },
        };
        let name = match section_name(data, index) {
            Some(n) => n,
            None => {
                proof {
                    reveal_strlit("section#");
                }
                let mut n = String::from_str("section#");
                crate::naming::push_decimal(&mut n, k);
                assert(n@ =~= fallback_name(k as int));
                n
            },
        };
        let contents = match section_data(data, index) {
            Some(d) => d,
            None => Vec::new(),
        };
        sections.push(
            ElfSection {
                index,
                name,
                flags,
                data: contents,
                size,
                alignment,
                relocations: parse_sections_relocations(data, index),
            },
        );
        k = k + 1;
    }
    Ok(sections)
}

/// The typed view of every symbol.
fn parse_symbols(data: &[u8], filename: &String) -> (r: Result<Vec<ElfSymbol>, LinkError>)
    ensures
        r matches Err(e) ==> e matches LinkError::ParseFailure { .. },
        r is Ok <==> symbols_readable(data@),
        r matches Ok(v) ==> symbols_describe(v@, data@),
{
    let indices = match symbol_indices(data) {
        Some(i) => i,
        None => {
            return Err(parse_failure(filename));
        },
    };
    let mut symbols: Vec<ElfSymbol> = Vec::new();
    let mut k: usize = 0;
    while k < indices.len()
        invariant
            k <= indices@.len(),
            elf_symbol_indices(data@) == Some(indices@),
            symbols@.len() == k,
            forall|q: int| 0 <= q < k ==> symbol_readable(data@, #[trigger] indices@[q]),
            forall|q: int| 0 <= q < k ==> symbol_describes(#[trigger] symbols@[q], data@, indices@[q]),
        decreases indices.len() - k,
    {
        let index = indices[k];
        let st_info = match symbol_st_info(data, index) {
            Some(i) => i,
            None => {
                assert(indices@[k as int] == index);
                assert(!symbol_readable(data@, elf_symbol_indices(data@)->0[k as int]));
                assert(!symbols_readable(data@));
                return Err(parse_failure(filename));
            },
        };
        let section = match symbol_section(data, index) {
            Some(s) => s,
            None => {
                assert(indices@[k as int] == index);
                assert(!symbol_readable(data@, elf_symbol_indices(data@)->0[k as int]));
                assert(!symbols_readable(data@));
                return Err(parse_failure(filename));
            },
        };
        let offset = match symbol_address(data, index) {
            Some(a) => a,
            None => {
                assert(indices@[k as int] == index);
                assert(!symbol_readable(data@, elf_symbol_indices(data@)->0[k as int]));
                assert(!symbols_readable(data@));
                return Err(parse_failure(filename));
            },
        };
        symbols.push(ElfSymbol { index, name: symbol_name(data, index), st_info, section, offset });
        k = k + 1;
    }
    Ok(symbols)
}

impl ElfObjectFile {
    /// Decodes an ELF object into its typed view. Fails with `ParseFailure`
    /// where the bytes are no object, or where a symbol or section lacks an
    /// ELF field.
    pub fn parse(filename: String, data: &[u8]) -> (r: Result<ElfObjectFile, LinkError>)
        ensures
            match r {
                Ok(o) => o.filename == filename && describes(o, data@),
                Err(e) => e matches LinkError::ParseFailure { .. },
            },
            r is Ok <==> elf_parses(data@),
    {
        let sections = match parse_sections_without_relocations(data, &filename) {
            Ok(s) => s,
            Err(e) => {
                return Err(e);
            },
        };
        let symbols = match parse_symbols(data, &filename) {
            Ok(s) => s,
            Err(e) => {
                return Err(e);
            },
        };
        Ok(ElfObjectFile { filename, sections, symbols })
    }
}

} // verus!
