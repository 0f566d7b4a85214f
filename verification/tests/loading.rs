use ttx_runtime::chip::{Chip, ChipCommand, NocAddress, NocId, Tile};
use ttx_runtime::elf::{ElfImage, ElfRelocation, ElfSegment, ElfSymbol};
use ttx_runtime::loader;
use ttx_runtime::loader::{LoadError, RelocationRead};

/// A 32-bit little-endian ELF file whose addresses are its file offsets.
struct Elf {
    entry: u32,
    text: Vec<u8>,
    /// Names and values of the symbols.
    symbols: Vec<(&'static str, u32)>,
    dynamic_symbols: Vec<(&'static str, u32)>,
    /// Offset, symbol, kind and addend.
    relocations: Vec<(u32, u32, u32, i32)>,
    /// Offset, symbol and kind.
    plain_relocations: Vec<(u32, u32, u32)>,
    /// How much longer the segment claims to be than it is.
    excess: u32,
}

fn names(symbols: &[(&'static str, u32)]) -> (Vec<u8>, Vec<u32>) {
    let mut table = vec![0];
    let mut offsets = Vec::new();
    for (name, _) in symbols {
        offsets.push(table.len() as u32);
        table.extend_from_slice(name.as_bytes());
        table.push(0);
    }
    (table, offsets)
}

fn symbol_table(symbols: &[(&'static str, u32)], offsets: &[u32]) -> Vec<u8> {
    let mut table = vec![0; 16];
    for ((_, value), name) in symbols.iter().zip(offsets) {
        table.extend_from_slice(&name.to_le_bytes());
        table.extend_from_slice(&value.to_le_bytes());
        table.extend_from_slice(&[0; 4]);
        table.extend_from_slice(&[0x10, 0, 1, 0]);
    }
    table
}

impl Elf {
    fn new() -> Self {
        Elf {
            entry: 0,
            text: (0..16).collect(),
            symbols: Vec::new(),
            dynamic_symbols: Vec::new(),
            relocations: Vec::new(),
            plain_relocations: Vec::new(),
            excess: 0,
        }
    }

    fn build(&self) -> Vec<u8> {
        let mut body = Vec::new();
        let start = 52 + 2 * 32;
        let mut add = |bytes: &[u8]| {
            while (start + body.len()) % 4 != 0 {
                body.push(0);
            }
            let offset = (start + body.len()) as u32;
            body.extend_from_slice(bytes);
            offset
        };
        add(&self.text);
        let (dynamic_names, dynamic_offsets) = names(&self.dynamic_symbols);
        let dynamic_strings = add(&dynamic_names);
        let dynamic_table = add(&symbol_table(&self.dynamic_symbols, &dynamic_offsets));
        let mut with_addend = Vec::new();
        for (offset, symbol, kind, addend) in &self.relocations {
            with_addend.extend_from_slice(&offset.to_le_bytes());
            with_addend.extend_from_slice(&((symbol << 8) | kind).to_le_bytes());
            with_addend.extend_from_slice(&addend.to_le_bytes());
        }
        let with_addend_at = add(&with_addend);
        let mut plain = Vec::new();
        for (offset, symbol, kind) in &self.plain_relocations {
            plain.extend_from_slice(&offset.to_le_bytes());
            plain.extend_from_slice(&((symbol << 8) | kind).to_le_bytes());
        }
        let plain_at = add(&plain);
        let mut dynamic = Vec::new();
        for (tag, value) in [
            (5, dynamic_strings),
            (10, dynamic_names.len() as u32),
            (6, dynamic_table),
            (7, with_addend_at),
            (8, with_addend.len() as u32),
            (9, 12),
            (17, plain_at),
            (18, plain.len() as u32),
            (19, 8),
            (0, 0),
        ] {
            dynamic.extend_from_slice(&u32::to_le_bytes(tag));
            dynamic.extend_from_slice(&u32::to_le_bytes(value));
        }
        let dynamic_at = add(&dynamic);
        let loaded = dynamic_at + dynamic.len() as u32;
        let (symbol_names, symbol_offsets) = names(&self.symbols);
        let strings_at = add(&symbol_names);
        let table = symbol_table(&self.symbols, &symbol_offsets);
        let table_at = add(&table);
        let mut sections = vec![0; 40];
        for fields in [
            [0, 2, 0, 0, table_at, table.len() as u32, 2, 1, 4, 16],
            [0, 3, 0, 0, strings_at, symbol_names.len() as u32, 0, 0, 1, 0],
        ] {
            for field in fields {
                sections.extend_from_slice(&u32::to_le_bytes(field));
            }
        }
        let sections_at = add(&sections);

        let mut file = vec![0x7f, b'E', b'L', b'F', 1, 1, 1, 0, 0, 0, 0, 0, 0, 0, 0, 0];
        file.extend_from_slice(&3u16.to_le_bytes());
        file.extend_from_slice(&243u16.to_le_bytes());
        for field in [1, self.entry, 52, sections_at, 0] {
            file.extend_from_slice(&u32::to_le_bytes(field));
        }
        for field in [52, 32, 2, 40, 3, 0] {
            file.extend_from_slice(&u16::to_le_bytes(field));
        }
        for fields in [
            [1, 0, 0, 0, loaded + self.excess, loaded + self.excess, 7, 4],
            [2, dynamic_at, dynamic_at, dynamic_at, dynamic.len() as u32, dynamic.len() as u32, 6, 4],
        ] {
            for field in fields {
                file.extend_from_slice(&u32::to_le_bytes(field));
            }
        }
        file.extend_from_slice(&body);
        file
    }

    /// How much of the file is loaded.
    fn loaded(&self) -> usize {
        let file = self.build();
        u32::from_le_bytes([file[68], file[69], file[70], file[71]]) as usize
    }
}

fn tile(x: u8, y: u8) -> Tile {
    Tile { addr: NocAddress { n0: (x, y), n1: (y, x) } }
}

#[test]
fn an_elf_file_is_loaded() {
    let mut elf = Elf::new();
    elf.symbols = vec![
        ("START_SYNC", 0x100),
        ("__brisc_start", 0x10),
        ("STATE_BRISC", 0x14),
        ("POSTCODE_BRISC", 0x18),
        ("PANIC_DATA_BRISC", 0x1c),
        ("__trisc2_start", 0x20),
        ("__firmware_end", 0x4000),
        ("VALUE", 1),
        ("VALUE", 2),
    ];
    elf.dynamic_symbols = vec![("outer", 0x44), ("inner", 0x48)];
    elf.relocations = vec![(0x74, 0, 3, 0x80), (0x78, 2, 1, -4)];
    elf.plain_relocations = vec![(0x7c, 1, 1)];
    let file = elf.build();
    let data = loader::load_elf(&file).ok().unwrap();

    assert_eq!(data.writes.len(), 1);
    assert_eq!(data.writes[0].addr, 0);
    assert_eq!(data.writes[0].data, file[..elf.loaded()]);

    assert_eq!(data.sym_table.get("VALUE"), Some(2));
    assert_eq!(data.sym_table.get("__firmware_end"), Some(0x4000));
    assert_eq!(data.sym_table.get("outer"), None);
    assert_eq!(data.sym_table.get("missing"), None);

    assert_eq!(data.bin.start_sync, Some(0x100));
    assert_eq!(data.bin.brisc_state.entry, Some(0x10));
    assert_eq!(data.bin.brisc_state.state, Some(0x14));
    assert_eq!(data.bin.brisc_state.postcode, Some(0x18));
    assert_eq!(data.bin.brisc_state.panic, Some(0x1c));
    assert_eq!(data.bin.trisc2_state.entry, Some(0x20));
    assert_eq!(data.bin.trisc2_state.state, None);
    assert_eq!(data.bin.ncrisc_state.entry, None);
    assert_eq!(data.bin.data_start, Some(0x4000));
    assert_eq!(data.bin.noc_debug, None);

    let relocations = &data.relocations;
    assert_eq!(relocations.len(), 3);
    assert_eq!(relocations[0].write_offset, 0x7c);
    assert_eq!(relocations[0].name.as_deref(), Some("outer"));
    assert!(matches!(relocations[0].read_offset, RelocationRead::SymbolValue32(0x44)));
    assert_eq!(relocations[0].addend, 0);
    assert_eq!(relocations[1].write_offset, 0x74);
    assert_eq!(relocations[1].name.as_deref(), Some(""));
    assert!(matches!(relocations[1].read_offset, RelocationRead::Base));
    assert_eq!(relocations[1].addend, 0x80);
    assert_eq!(relocations[2].write_offset, 0x78);
    assert_eq!(relocations[2].name.as_deref(), Some("inner"));
    assert!(matches!(relocations[2].read_offset, RelocationRead::SymbolValue32(0x48)));
    assert_eq!(relocations[2].addend, -4);
}

#[test]
fn what_is_no_elf_file_is_malformed() {
    assert!(matches!(loader::load_elf(&[]), Err(LoadError::Malformed)));
    assert!(matches!(loader::load_elf(b"not an elf file, but long enough for a header of one, so there"), Err(LoadError::Malformed)));
}

#[test]
fn an_entry_point_is_refused() {
    let mut elf = Elf::new();
    elf.entry = 0x40;
    assert!(matches!(loader::load_elf(&elf.build()), Err(LoadError::NonZeroEntry(0x40))));
}

#[test]
fn a_segment_beyond_the_file_is_refused() {
    let mut elf = Elf::new();
    elf.excess = 0x1000;
    assert!(matches!(loader::load_elf(&elf.build()), Err(LoadError::SegmentOutOfBounds)));
}

#[test]
fn unknown_relocations_are_refused() {
    let mut elf = Elf::new();
    elf.relocations = vec![(0x74, 0, 3, 0), (0x78, 0, 5, 0)];
    assert!(matches!(loader::load_elf(&elf.build()), Err(LoadError::UnsupportedRelocation(5))));
}

#[test]
fn relocations_against_no_symbol_are_refused() {
    let mut elf = Elf::new();
    elf.relocations = vec![(0x74, 0, 1, 0)];
    assert!(matches!(loader::load_elf(&elf.build()), Err(LoadError::MissingSymbol(0))));
}

fn image() -> ElfImage {
    ElfImage {
        entry: 0,
        segments: Vec::new(),
        symbols: Vec::new(),
        dynamic_symbols: Vec::new(),
        dynamic_rels: Vec::new(),
        dynamic_relas: Vec::new(),
        plt_relocations: Vec::new(),
    }
}

#[test]
fn only_loadable_segments_are_written() {
    let mut image = image();
    image.segments = vec![
        ElfSegment { kind: 6, offset: 0, file_size: 100, address: 0 },
        ElfSegment { kind: 1, offset: 1, file_size: 2, address: 0x1_0000_0010 },
        ElfSegment { kind: 1, offset: 4, file_size: 0, address: 8 },
    ];
    let data = loader::load_image(&image, &[5, 6, 7, 8]).ok().unwrap();
    assert_eq!(data.writes.len(), 2);
    assert_eq!((data.writes[0].addr, data.writes[0].data.clone()), (0x10, vec![6, 7]));
    assert_eq!((data.writes[1].addr, data.writes[1].data.clone()), (8, Vec::new()));
}

#[test]
fn a_segment_that_ends_past_all_addresses_is_refused() {
    let mut image = image();
    image.segments = vec![ElfSegment { kind: 1, offset: u64::MAX, file_size: 2, address: 0 }];
    assert!(matches!(loader::load_image(&image, &[0; 8]), Err(LoadError::SegmentOutOfBounds)));
}

#[test]
fn symbols_without_a_name_are_not_listed() {
    let mut image = image();
    image.symbols = vec![
        ElfSymbol { name: Some("a".to_string()), value: 1 },
        ElfSymbol { name: None, value: 2 },
        ElfSymbol { name: Some("a".to_string()), value: 3 },
        ElfSymbol { name: Some("b".to_string()), value: 4 },
    ];
    let data = loader::load_image(&image, &[]).ok().unwrap();
    assert_eq!(data.sym_table.get("a"), Some(3));
    assert_eq!(data.sym_table.get("b"), Some(4));
    assert_eq!(data.sym_table.get(""), None);
    let copy = data.clone();
    assert_eq!(copy.sym_table.get("a"), Some(3));
    assert_eq!(copy.sym_table.symbol("b"), 4);
}

#[test]
fn relocations_are_processed_list_by_list() {
    let relocation = |offset: u64| ElfRelocation { offset, addend: None, symbol: 9, kind: 3 };
    let mut image = image();
    image.plt_relocations = vec![relocation(1)];
    image.dynamic_relas = vec![relocation(2), relocation(3)];
    image.dynamic_rels = vec![relocation(4)];
    let data = loader::load_image(&image, &[]).ok().unwrap();
    let order: Vec<u64> = data.relocations.iter().map(|r| r.write_offset).collect();
    assert_eq!(order, [4, 2, 3, 1]);
    assert!(data.relocations.iter().all(|r| r.name.is_none() && r.addend == 0));
    assert_eq!(data.relocations[0].to_kernel_relocation().write_offset, 4);
}

#[test]
fn a_kernel_is_broadcast_or_written_core_by_core() {
    let elf = Elf::new();
    let file = elf.build();
    let bytes = file[..elf.loaded()].to_vec();

    let mut chip = Chip::new();
    assert!(loader::load_to_all(&mut chip, &file).is_ok());
    assert_eq!(
        chip.take_commands(),
        [ChipCommand::Broadcast { noc_id: NocId::Noc0, addr: 0, data: bytes.clone() }]
    );
    assert_eq!(chip.take_commands(), []);

    assert!(loader::load_to_cores(&mut chip, &[tile(1, 2), tile(3, 4)], &file).is_ok());
    let write = |core: Tile| ChipCommand::Write {
        noc_id: NocId::Noc0,
        core: core.addr,
        addr: 0,
        data: bytes.clone(),
    };
    assert_eq!(chip.take_commands(), [write(tile(1, 2)), write(tile(3, 4))]);

    assert!(loader::load_to_core(&mut chip, tile(5, 6), &file).is_ok());
    assert_eq!(chip.take_commands(), [write(tile(5, 6))]);

    assert!(loader::load_to_all(&mut chip, &[]).is_err());
    assert!(loader::load_to_cores(&mut chip, &[tile(1, 2)], &[]).is_err());
    assert_eq!(chip.take_commands(), []);
}

#[test]
fn cores_are_started_and_stopped() {
    let core = tile(1, 2).addr;
    let register = 0xFFB1_21B0;
    let broadcast = |value: u32| ChipCommand::Broadcast32 { noc_id: NocId::Noc0, addr: register, value };
    let set = |value: u32| {
        [
            ChipCommand::Write32 { noc_id: NocId::Noc0, core, addr: register, value },
            ChipCommand::Expect32 { noc_id: NocId::Noc0, core, addr: register, value },
        ]
    };
    let mut chip = Chip::new();

    loader::reset_to_default(&mut chip);
    assert_eq!(
        chip.take_commands(),
        [ChipCommand::GoIdle, ChipCommand::DeassertRiscvReset, broadcast(0x4_7800)]
    );
    loader::lower_clocks(&mut chip);
    loader::raise_clocks(&mut chip);
    assert_eq!(chip.take_commands(), [ChipCommand::GoIdle, ChipCommand::GoBusy]);
    loader::stop_all(&mut chip);
    assert_eq!(chip.take_commands(), [ChipCommand::GoIdle, broadcast(0x4_7800)]);

    for (keep, stagger, value) in [
        (false, false, 0x4_0000),
        (true, false, 0x4_7000),
        (false, true, 0x8004_0000),
        (true, true, 0x8004_7000),
    ] {
        loader::start_all(&mut chip, keep, stagger);
        assert_eq!(chip.take_commands(), [broadcast(value)]);
        loader::start(&mut chip, core, keep, stagger);
        assert_eq!(chip.take_commands(), set(value));
    }
    loader::easy_start(&mut chip, core);
    assert_eq!(chip.take_commands(), set(0x8004_7000));
    loader::easy_start_all(&mut chip);
    assert_eq!(chip.take_commands(), [broadcast(0x8004_7000)]);
    loader::stop(&mut chip, core);
    assert_eq!(chip.take_commands(), set(0x4_7800));
}

#[test]
fn an_address_is_looked_up_by_network() {
    let address = tile(1, 2).addr;
    assert_eq!(address.get(NocId::Noc0), (1, 2));
    assert_eq!(address.get(NocId::Noc1), (2, 1));
}
