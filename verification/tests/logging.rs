use ttx_runtime::firmware::defmt;
use ttx_runtime::firmware::defmt::{LogFetch, LogLocation, LogParse, LogSetup};

fn location(index: u64, file: &str) -> LogLocation {
    LogLocation { index, file: file.to_string(), line: 7, module: "firmware::main".to_string() }
}

/// The smallest ELF file: a header alone.
fn bare_elf() -> Vec<u8> {
    let mut file = vec![0x7f, b'E', b'L', b'F', 1, 1, 1, 0, 0, 0, 0, 0, 0, 0, 0, 0];
    file.extend_from_slice(&2u16.to_le_bytes());
    file.extend_from_slice(&243u16.to_le_bytes());
    for field in [1u32, 0, 0, 0, 0] {
        file.extend_from_slice(&field.to_le_bytes());
    }
    for field in [52u16, 32, 0, 40, 0, 0] {
        file.extend_from_slice(&field.to_le_bytes());
    }
    file
}

/// An ELF file with a log section, with these symbols in it.
fn logging_elf(statements: &[(&str, u32)]) -> Vec<u8> {
    let mut strings = vec![0];
    let mut symbols = vec![0; 16];
    let mut symbol = |name: &str, value: u32, section: u16| {
        symbols.extend_from_slice(&(strings.len() as u32).to_le_bytes());
        symbols.extend_from_slice(&value.to_le_bytes());
        symbols.extend_from_slice(&1u32.to_le_bytes());
        symbols.extend_from_slice(&[0x11, 0]);
        symbols.extend_from_slice(&section.to_le_bytes());
        strings.extend_from_slice(name.as_bytes());
        strings.push(0);
    };
    symbol("_defmt_version_ = 4", 0, 0xfff1);
    symbol("_defmt_encoding_ = raw", 0, 0xfff1);
    for (name, value) in statements {
        symbol(name, *value, 1);
    }
    let names = b"\0.defmt\0.symtab\0.strtab\0.shstrtab\0";

    let mut file = bare_elf();
    file.resize(56, 0);
    let cells = file.len();
    let mut place = |bytes: &[u8]| {
        let at = file.len();
        file.extend_from_slice(bytes);
        file.resize(file.len().next_multiple_of(8), 0);
        at
    };
    place(&[0]);
    let symbols_at = place(&symbols);
    let strings_at = place(&strings);
    let names_at = place(names);
    let headers_at = file.len();
    for fields in [
        [0; 10],
        [1, 1, 0, 0, cells as u32, 1, 0, 0, 1, 0],
        [8, 2, 0, 0, symbols_at as u32, symbols.len() as u32, 3, 1, 1, 16],
        [16, 3, 0, 0, strings_at as u32, strings.len() as u32, 0, 0, 1, 0],
        [24, 3, 0, 0, names_at as u32, names.len() as u32, 0, 0, 1, 0],
    ] {
        for field in fields {
            file.extend_from_slice(&u32::to_le_bytes(field));
        }
    }
    file[32..36].copy_from_slice(&(headers_at as u32).to_le_bytes());
    file[48..50].copy_from_slice(&5u16.to_le_bytes());
    file[50..52].copy_from_slice(&4u16.to_le_bytes());
    file
}

#[test]
fn a_log_without_statements_can_be_followed() {
    let setup = defmt::log_setup(&logging_elf(&[]));
    assert!(matches!(setup, LogSetup::Ready(locations) if locations.is_empty()));
}

#[test]
fn a_statement_without_a_location_is_told() {
    let statement = r#"{"package":"p","tag":"defmt_info","data":"hello","disambiguator":"1","crate_name":"c"}"#;
    let setup = defmt::log_setup(&logging_elf(&[(statement, 0x20)]));
    assert!(matches!(setup, LogSetup::Incomplete));
}

#[test]
fn a_statement_that_cannot_be_read_is_told() {
    assert!(matches!(defmt::log_setup(&logging_elf(&[("nonsense", 0x20)])), LogSetup::Malformed));
}

#[test]
fn a_file_without_a_log_is_told() {
    assert!(matches!(defmt::log_setup(&bare_elf()), LogSetup::NoLog));
}

#[test]
fn a_file_that_cannot_be_read_is_told() {
    assert!(matches!(defmt::log_setup(b"no elf file"), LogSetup::Malformed));
    assert!(matches!(defmt::log_setup(&[]), LogSetup::Malformed));
    assert!(matches!(defmt::log_setup(&bare_elf()[..15]), LogSetup::Malformed));
    for (at, byte) in [(0, 0x7e), (3, b'f'), (4, 0), (4, 3)] {
        let mut file = bare_elf();
        file[at] = byte;
        assert!(matches!(defmt::log_setup(&file), LogSetup::Malformed));
    }
}

#[test]
fn every_statement_needs_a_location() {
    let locations = || vec![location(1, "/a"), location(4, "/b")];
    assert!(matches!(defmt::check_locations(&vec![4, 1], locations()), LogSetup::Ready(kept) if kept.len() == 2));
    assert!(matches!(defmt::check_locations(&vec![], locations()), LogSetup::Ready(_)));
    assert!(matches!(defmt::check_locations(&vec![1, 2], locations()), LogSetup::Incomplete));
}

#[test]
fn the_decoder_is_taken_at_its_word() {
    let log = Ok(Some((vec![1], Some(vec![location(1, "/a")]))));
    assert!(matches!(
        defmt::parse_from(log),
        LogParse::Found { indices, locations: Some(places) }
            if indices == [1] && places == [location(1, "/a")]
    ));
    assert!(matches!(defmt::parse_from(Ok(None)), LogParse::NoLog));
    assert!(matches!(defmt::parse_from(Err(())), LogParse::Malformed));
}

#[test]
fn what_the_decoder_found_decides() {
    let found = |indices: Vec<u64>, locations: Option<Vec<LogLocation>>| {
        defmt::setup_from(LogParse::Found { indices, locations })
    };
    let one = || Some(vec![location(1, "/a")]);
    assert!(matches!(found(vec![1], one()), LogSetup::Ready(kept) if kept == [location(1, "/a")]));
    assert!(matches!(found(vec![1, 2], one()), LogSetup::Incomplete));
    assert!(matches!(found(vec![], None), LogSetup::Malformed));
    assert!(matches!(defmt::setup_from(LogParse::NoLog), LogSetup::NoLog));
    assert!(matches!(defmt::setup_from(LogParse::Malformed), LogSetup::Malformed));
}

#[test]
fn files_are_shown_relative_to_the_current_directory() {
    let locations = vec![location(1, "/work/src/main.rs"), location(4, "/elsewhere/lib.rs")];
    assert_eq!(
        defmt::location_info(&locations, 1, "/work"),
        (Some("src/main.rs".to_string()), Some(7), Some("firmware::main".to_string()))
    );
    assert_eq!(
        defmt::location_info(&locations, 4, "/work").0,
        Some("/elsewhere/lib.rs".to_string())
    );
    assert_eq!(defmt::location_info(&locations, 2, "/work"), (None, None, None));
    let file = |dir: &str| defmt::location_info(&locations, 1, dir).0;
    assert_eq!(file("/work/src").as_deref(), Some("main.rs"));
    assert_eq!(file("/work/src/main.rs").as_deref(), Some(""));
    assert_eq!(file("/wor").as_deref(), Some("/work/src/main.rs"));
    assert_eq!(file("/work/src/main.rs/x").as_deref(), Some("/work/src/main.rs"));

    let hidden = vec![location(1, "/home/u/.cargo/..x/lib.rs")];
    let file = |dir: &str| defmt::location_info(&hidden, 1, dir).0;
    assert_eq!(file("/home/u").as_deref(), Some(".cargo/..x/lib.rs"));
    assert_eq!(file("/home/u/.cargo").as_deref(), Some("..x/lib.rs"));
    assert_eq!(file("/home/u/.car").as_deref(), Some("/home/u/.cargo/..x/lib.rs"));
}

#[test]
fn a_relative_path_is_preferred() {
    let mut place = location(1, "/a");
    place.line = 0x1_0000_0002;
    let (file, line, module) = defmt::location_from(&place, Some("b".to_string()));
    assert_eq!(file.as_deref(), Some("b"));
    assert_eq!(line, Some(2));
    assert_eq!(module.as_deref(), Some("firmware::main"));
    assert_eq!(defmt::location_from(&place, None).0.as_deref(), Some("/a"));
}

#[test]
fn the_log_is_read_byte_by_byte() {
    assert_eq!(defmt::run_defmt(5, 5, 0x1000), None);
    assert_eq!(defmt::run_defmt(u32::MAX, u32::MAX, u64::MAX), None);
    assert_eq!(defmt::run_defmt(5, 6, 0x1000), Some(LogFetch { addr: 0x1005, next_read: 6 }));
    assert_eq!(defmt::run_defmt(1023, 0, 0x1000), Some(LogFetch { addr: 0x13ff, next_read: 0 }));
}

#[test]
fn the_reader_catches_up() {
    let mut read = 1000;
    let write = 20;
    let mut fetched = 0;
    while let Some(fetch) = defmt::run_defmt(read, write, 0) {
        assert_eq!(fetch.addr, read as u64);
        read = fetch.next_read;
        fetched += 1;
    }
    assert_eq!(fetched, 44);
    assert_eq!(read, write);
}
