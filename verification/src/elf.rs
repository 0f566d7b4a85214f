//! What a loader reads in an ELF file.

use vstd::prelude::*;

verus! {

/// The kind of a segment that is loaded.
pub const PT_LOAD: u32 = 1;

/// A relocation that writes a symbol's value plus the addend.
pub const R_RISCV_32: u32 = 1;

/// A relocation that writes the load address plus the addend.
pub const R_RISCV_RELATIVE: u32 = 3;

/// A program header.
#[derive(Clone, Copy)]
pub struct ElfSegment {
    pub kind: u32,
    /// Where the segment's bytes stand in the file, and how many there are.
    pub offset: u64,
    pub file_size: u64,
    /// The virtual address that they are loaded at.
    pub address: u64,
}

/// A symbol, with its name where the string table has one.
pub struct ElfSymbol {
    pub name: Option<String>,
    pub value: u64,
}

/// A relocation entry.
#[derive(Clone, Copy)]
pub struct ElfRelocation {
    pub offset: u64,
    pub addend: Option<i64>,
    /// Index into the dynamic symbols.
    pub symbol: usize,
    pub kind: u32,
}

/// The parts of an ELF file that loading depends on.
pub struct ElfImage {
    pub entry: u64,
    pub segments: Vec<ElfSegment>,
    pub symbols: Vec<ElfSymbol>,
    pub dynamic_symbols: Vec<ElfSymbol>,
    /// The dynamic relocations without an addend.
    pub dynamic_rels: Vec<ElfRelocation>,
    /// The dynamic relocations with an addend.
    pub dynamic_relas: Vec<ElfRelocation>,
    /// The relocations of the procedure linkage table.
    pub plt_relocations: Vec<ElfRelocation>,
}

/// A symbol as a value: its name and what it stands for.
pub type SymbolView = (Option<Seq<char>>, u64);

#[verifier::ext_equal]
pub struct ElfContents {
    pub entry: u64,
    pub segments: Seq<ElfSegment>,
    pub symbols: Seq<SymbolView>,
    pub dynamic_symbols: Seq<SymbolView>,
    pub dynamic_rels: Seq<ElfRelocation>,
    pub dynamic_relas: Seq<ElfRelocation>,
    pub plt_relocations: Seq<ElfRelocation>,
}

/// A name that may be missing, as a value.
pub open spec fn name_view(name: Option<String>) -> Option<Seq<char>> {
    match name {
        Some(text) => Some(text@),
        None => None,
    }
}

/// A list of symbols as values.
pub open spec fn symbols_view(symbols: Seq<ElfSymbol>) -> Seq<SymbolView> {
    Seq::new(symbols.len(), |i: int| (name_view(symbols[i].name), symbols[i].value))
}

impl View for ElfImage {
    type V = ElfContents;

    open spec fn view(&self) -> ElfContents {
        ElfContents {
            entry: self.entry,
            segments: self.segments@,
            symbols: symbols_view(self.symbols@),
            dynamic_symbols: symbols_view(self.dynamic_symbols@),
            dynamic_rels: self.dynamic_rels@,
            dynamic_relas: self.dynamic_relas@,
            plt_relocations: self.plt_relocations@,
        }
    }
}

/// What goblin's ELF parser finds in a file; `None` where it reports an error.
pub uninterp spec fn elf_contents(file: Seq<u8>) -> Option<ElfContents>;

#[verifier::external_type_specification]
#[verifier::external_body]
pub struct ExGoblinError(goblin::error::Error);

/// The entry point of a file, its segments and its relocations.
struct ElfLayout {
    entry: u64,
    segments: Vec<ElfSegment>,
    dynamic_rels: Vec<ElfRelocation>,
    dynamic_relas: Vec<ElfRelocation>,
    plt_relocations: Vec<ElfRelocation>,
}

/// The symbol tables of a file.
struct ElfSymbols {
    symbols: Vec<ElfSymbol>,
    dynamic_symbols: Vec<ElfSymbol>,
}

/// `goblin::elf::Elf::parse`, with the entry point, the program headers and the three lists of
/// relocations of its result, each in file order. All of it is a function of the file's bytes, which
/// is all that is claimed.
#[verifier::external_body]
fn parse_layout(file: &[u8]) -> (layout: Result<ElfLayout, goblin::error::Error>)
    ensures
        match layout {
            Ok(layout) => elf_contents(file@) matches Some(contents) && {
                &&& contents.entry == layout.entry
                &&& contents.segments == layout.segments@
                &&& contents.dynamic_rels == layout.dynamic_rels@
                &&& contents.dynamic_relas == layout.dynamic_relas@
                &&& contents.plt_relocations == layout.plt_relocations@
            },
            Err(_) => elf_contents(file@) is None,
        },
{
    let elf = goblin::elf::Elf::parse(file)?;
    let relocation = |r: goblin::elf::Reloc| ElfRelocation { offset: r.r_offset, addend: r.r_addend, symbol: r.r_sym, kind: r.r_type };
    let segment = |h: &goblin::elf::ProgramHeader| ElfSegment { kind: h.p_type, offset: h.p_offset, file_size: h.p_filesz, address: h.p_vaddr };
    Ok(
        ElfLayout {
            entry: elf.entry,
            segments: elf.program_headers.iter().map(segment).collect(),
            dynamic_rels: elf.dynrels.iter().map(relocation).collect(),
            dynamic_relas: elf.dynrelas.iter().map(relocation).collect(),
            plt_relocations: elf.pltrelocs.iter().map(relocation).collect(),
        },
    )
}

/// `goblin::elf::Elf::parse`, with both symbol tables of its result and the names that
/// `Strtab::get_at` finds for their symbols. All of it is a function of the file's bytes, which is
/// all that is claimed.
#[verifier::external_body]
fn parse_symbols(file: &[u8]) -> (tables: Result<ElfSymbols, goblin::error::Error>)
    ensures
        match tables {
            Ok(tables) => elf_contents(file@) matches Some(contents) && {
                &&& contents.symbols == symbols_view(tables.symbols@)
                &&& contents.dynamic_symbols == symbols_view(tables.dynamic_symbols@)
            },
            Err(_) => elf_contents(file@) is None,
        },
{
    let elf = goblin::elf::Elf::parse(file)?;
    let symbol = |s: goblin::elf::Sym| ElfSymbol { name: elf.strtab.get_at(s.st_name).map(String::from), value: s.st_value };
    let dynamic = |s: goblin::elf::Sym| ElfSymbol { name: elf.dynstrtab.get_at(s.st_name).map(String::from), value: s.st_value };
    Ok(
        ElfSymbols {
            symbols: elf.syms.iter().map(symbol).collect(),
            dynamic_symbols: elf.dynsyms.iter().map(dynamic).collect(),
        },
    )
}

/// What loading reads in an ELF file, or `None` where the file is malformed.
pub fn parse_elf(file: &[u8]) -> (image: Option<ElfImage>)
    ensures
        match image {
            Some(image) => elf_contents(file@) == Some(image@),
            None => elf_contents(file@) is None,
        },
{
    let layout = match parse_layout(file) {
        Ok(layout) => layout,
        Err(_) => {
            return None;
        },
    };
    let tables = match parse_symbols(file) {
        Ok(tables) => tables,
        Err(_) => {
            return None;
        },
    };
    Some(
        ElfImage {
            entry: layout.entry,
            segments: layout.segments,
            symbols: tables.symbols,
            dynamic_symbols: tables.dynamic_symbols,
            dynamic_rels: layout.dynamic_rels,
            dynamic_relas: layout.dynamic_relas,
            plt_relocations: layout.plt_relocations,
        },
    )
}

} // verus!
