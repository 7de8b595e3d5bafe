use vstd::prelude::*;

verus! {

/// How the relocation computes its value, as the ELF relocation type says.
#[derive(Debug, Clone, Copy, PartialEq, Eq, Structural)]
pub enum ElfRelocationKind {
    /// `R_386_32`: symbol plus addend.
    Absolute,
    /// `R_386_PC32`: symbol plus addend minus place.
    Relative,
    /// `R_386_PLT32`: PLT entry plus addend minus place.
    PltRelative,
    /// Any other relocation type.
    Unsupported,
}

/// What a relocation refers to.
#[derive(Debug, Clone, Copy, PartialEq, Eq, Structural)]
pub enum ElfRelocationTarget {
    /// The symbol with this index in the object's symbol table.
    Symbol(usize),
    /// The section with this index.
    Section(usize),
    /// An absolute value.
    Absolute,
}

#[derive(Debug, Clone, Copy, PartialEq, Eq, Structural)]
pub struct ElfRelocation {
    pub target: ElfRelocationTarget,
    /// Width of the patched place, in bits.
    pub size: u8,
    /// Offset of the patched place inside the section.
    pub offset: u64,
    pub kind: ElfRelocationKind,
}

#[derive(Debug, Clone)]
pub struct ElfSection {
    /// The index of the section header.
    pub index: usize,
    pub name: String,
    /// `sh_flags`.
    pub flags: u64,
    /// The section's bytes; empty for uninitialized data.
    pub data: Vec<u8>,
    /// `sh_size`.
    pub size: u64,
    /// `sh_addralign`.
    pub alignment: u64,
    pub relocations: Vec<ElfRelocation>,
}

/// Where a symbol is defined.
#[derive(Debug, Clone, Copy, PartialEq, Eq, Structural)]
pub enum ElfSymbolSection {
    /// `SHN_UNDEF`: defined elsewhere.
    Undefined,
    /// In the section with this index.
    Section(usize),
    /// Absolute, common or otherwise not in a section.
    Other,
}

#[derive(Debug, Clone, Copy, PartialEq, Eq, Structural)]
pub enum ElfSymbolType {
    /// Links to an implementation in this object.
    Internal,
    /// Links to a definition in another object.
    External,
}

#[derive(Debug, Clone)]
pub struct ElfSymbol {
    /// The index in the object's symbol table.
    pub index: usize,
    /// The name, where the string table yields one.
    pub name: Option<String>,
    /// `st_info`: binding in the high nibble, type in the low one.
    pub st_info: u8,
    pub section: ElfSymbolSection,
    /// `st_value`: the offset inside its section.
    pub offset: u64,
}

#[derive(Debug, Clone, Copy, PartialEq, Eq, Structural)]
pub enum ElfSectionKind {
    Code,
    Data,
}

/// A typed view of one relocatable ELF object.
#[derive(Debug, Clone)]
pub struct ElfObjectFile {
    pub filename: String,
    pub sections: Vec<ElfSection>,
    pub symbols: Vec<ElfSymbol>,
}

pub const STB_LOCAL: u8 = 0;

pub const STB_GLOBAL: u8 = 1;

pub const STB_WEAK: u8 = 2;

pub const STT_NOTYPE: u8 = 0;

pub const SHF_EXECINSTR: u64 = 4;

pub open spec fn binding(st_info: u8) -> u8 {
    (st_info / 16) as u8
}

pub open spec fn symbol_kind(st_info: u8) -> u8 {
    (st_info % 16) as u8
}

/// The symbol's own name, where it has a non-empty one.
pub open spec fn own_name(symbol: ElfSymbol) -> Option<Seq<char>> {
    match symbol.name {
        Some(n) => if n@.len() > 0 {
            Some(n@)
        } else {
            None
        },
        None => None,
    }
}

impl ElfSymbol {
    /// External: no type, undefined, and named.
    pub open spec fn spec_is_external(&self) -> bool {
        &&& symbol_kind(self.st_info) == STT_NOTYPE
        &&& self.section == ElfSymbolSection::Undefined
        &&& own_name(*self) is Some
    }

    pub fn symbol_type(&self) -> (r: ElfSymbolType)
        ensures
            r == (if self.spec_is_external() {
                ElfSymbolType::External
            } else {
                ElfSymbolType::Internal
            }),
    {
        if is_external_symbol(self) {
            ElfSymbolType::External
        } else {
            ElfSymbolType::Internal
        }
    }
}

impl ElfSection {
    pub open spec fn spec_kind(&self) -> ElfSectionKind {
        if (self.flags / SHF_EXECINSTR) % 2 == 1 {
            ElfSectionKind::Code
        } else {
            ElfSectionKind::Data
        }
    }

    pub fn kind(&self) -> (r: ElfSectionKind)
        ensures
            r == self.spec_kind(),
    {
        if is_executable_section(self) {
            ElfSectionKind::Code
        } else {
            ElfSectionKind::Data
        }
    }
}

impl ElfObjectFile {
    pub fn new(filename: String) -> (r: Self)
        ensures
            r.filename == filename,
            r.sections@.len() == 0,
            r.symbols@.len() == 0,
    {
        Self { filename, sections: Vec::new(), symbols: Vec::new() }
    }

    /// `p` is the first position in `sections` with header index `index`.
    pub open spec fn is_first_section(&self, index: usize, p: int) -> bool {
        &&& 0 <= p < self.sections.len()
        &&& self.sections[p].index == index
        &&& forall|q: int| 0 <= q < p ==> self.sections[q].index != index
    }

    /// The first position in `sections` of the section with header index `index`.
    pub open spec fn section_position(&self, index: usize) -> Option<int> {
        if exists|p: int| self.is_first_section(index, p) {
            Some(choose|p: int| self.is_first_section(index, p))
        } else {
            None
        }
    }

    /// Finds the section with header index `index`.
    pub fn find_section(&self, index: usize) -> (r: Option<usize>)
        ensures
            match r {
                Some(p) => self.section_position(index) == Some(p as int),
                None => self.section_position(index) is None,
            },
    {
        let mut p: usize = 0;
        while p < self.sections.len()
            invariant
                p <= self.sections.len(),
                forall|q: int| 0 <= q < p ==> self.sections[q].index != index,
            decreases self.sections.len() - p,
        {
            if self.sections[p].index == index {
                proof {
                    assert(self.is_first_section(index, p as int));
                    let c = choose|c: int| self.is_first_section(index, c);
                    assert(c == p) by {
                        if c < p {
                            assert(self.sections[c].index == index);
                        } else if c > p {
                            assert(self.sections[p as int].index == index);
                        }
                    }
                }
                return Some(p);
            }
            p = p + 1;
        }
        None
    }

    /// `p` is the first position in `symbols` with symbol-table index `index`.
    pub open spec fn is_first_symbol(&self, index: usize, p: int) -> bool {
        &&& 0 <= p < self.symbols.len()
        &&& self.symbols[p].index == index
        &&& forall|q: int| 0 <= q < p ==> self.symbols[q].index != index
    }

    /// The symbol with symbol-table index `index`.
    pub open spec fn symbol_at(&self, index: usize) -> Option<ElfSymbol> {
        if exists|p: int| self.is_first_symbol(index, p) {
            Some(self.symbols[choose|p: int| self.is_first_symbol(index, p)])
        } else {
            None
        }
    }

    /// Finds the symbol with symbol-table index `index`.
    pub fn find_symbol(&self, index: usize) -> (r: Option<usize>)
        ensures
            match r {
                Some(p) => p < self.symbols.len() && self.symbol_at(index) == Some(self.symbols[p as int]),
                None => self.symbol_at(index) is None,
            },
    {
        let mut p: usize = 0;
        while p < self.symbols.len()
            invariant
                p <= self.symbols.len(),
                forall|q: int| 0 <= q < p ==> self.symbols[q].index != index,
            decreases self.symbols.len() - p,
        {
            if self.symbols[p].index == index {
                proof {
                    assert(self.is_first_symbol(index, p as int));
                    let c = choose|c: int| self.is_first_symbol(index, c);
                    assert(c == p) by {
                        if c < p {
                            assert(self.symbols[c].index == index);
                        } else if c > p {
                            assert(self.symbols[p as int].index == index);
                        }
                    }
                }
                return Some(p);
            }
            p = p + 1;
        }
        None
    }
}

pub fn is_local_symbol(symbol: &ElfSymbol) -> (r: bool)
    ensures
        r == (binding(symbol.st_info) == STB_LOCAL),
{
    symbol.st_info / 16 == STB_LOCAL
}

pub fn is_global_symbol(symbol: &ElfSymbol) -> (r: bool)
    ensures
        r == (binding(symbol.st_info) == STB_GLOBAL),
{
    symbol.st_info / 16 == STB_GLOBAL
}

pub fn is_weak_symbol(symbol: &ElfSymbol) -> (r: bool)
    ensures
        r == (binding(symbol.st_info) == STB_WEAK),
{
    symbol.st_info / 16 == STB_WEAK
}

pub fn is_executable_section(section: &ElfSection) -> (r: bool)
    ensures
        r == (section.spec_kind() == ElfSectionKind::Code),
{
    (section.flags / SHF_EXECINSTR) % 2 == 1
}

/// The symbol's own non-empty name.
pub fn own_symbol_name(symbol: &ElfSymbol) -> (r: Option<String>)
    ensures
        match r {
            Some(n) => own_name(*symbol) == Some(n@),
            None => own_name(*symbol) is None,
        },
{
    match &symbol.name {
        Some(n) => if n.as_str().unicode_len() > 0 {
            Some(n.clone())
        } else {
            None
        },
        None => None,
    }
}

/// A symbol's name: its own, or, when `object` is given, that of the section
/// it is defined in.
pub open spec fn symbol_name(symbol: ElfSymbol, elf: Option<ElfObjectFile>) -> Option<Seq<char>> {
    if own_name(symbol) is Some {
        own_name(symbol)
    } else {
        match (elf, symbol.section) {
            (Some(o), ElfSymbolSection::Section(i)) => match o.section_position(i) {
                Some(p) => if o.sections[p].name@.len() > 0 {
                    Some(o.sections[p].name@)
                } else {
                    None
                },
                None => None,
            },
            _ => None,
        }
    }
}

pub fn get_symbol_name(symbol: &ElfSymbol, object_file: Option<&ElfObjectFile>) -> (r: Option<String>)
    ensures
        match r {
            Some(n) => symbol_name(*symbol, match object_file { Some(o) => Some(*o), None => None }) == Some(n@),
            None => symbol_name(*symbol, match object_file { Some(o) => Some(*o), None => None }) is None,
        },
{
    let own = own_symbol_name(symbol);
    if own.is_some() {
        return own;
    }
    match (object_file, symbol.section) {
        (Some(o), ElfSymbolSection::Section(i)) => match o.find_section(i) {
            Some(p) => {
                let name = &o.sections[p].name;
                if name.as_str().unicode_len() > 0 {
                    Some(name.clone())
                } else {
                    None
                }
            },
            None => None,
        },
        _ => None,
    }
}

pub fn is_external_symbol(symbol: &ElfSymbol) -> (r: bool)
    ensures
        r == symbol.spec_is_external(),
{
    let has_no_type = symbol.st_info % 16 == STT_NOTYPE;
    let has_name = own_symbol_name(symbol).is_some();
    has_no_type && symbol.section == ElfSymbolSection::Undefined && has_name
}

} // verus!
