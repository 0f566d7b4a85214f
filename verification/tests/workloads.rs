use ttx_runtime::builder::Rewrite;
use ttx_runtime::chip::{Arch, NocAddress, Tile};
use ttx_runtime::kernel::{CoreData, KernelBinData, KernelBytes, KernelData};
use ttx_runtime::symbols::SymbolTable;
use ttx_runtime::workload;
use ttx_runtime::workload::{
    LoadedWorkload, OutputBuffer, SourceFile, Workload, WorkloadBuilder,
};

fn kernel(writes: Vec<KernelBytes>) -> KernelData {
    let core = CoreData { entry: None, state: None, postcode: None, panic: None };
    KernelData {
        bin: KernelBinData {
            start_sync: None,
            brisc_state: core,
            ncrisc_state: core,
            trisc0_state: core,
            trisc1_state: core,
            trisc2_state: core,
            data_start: None,
            unknown_panic: None,
            noc_debug: None,
        },
        sym_table: SymbolTable::new(),
        writes,
        relocations: Vec::new(),
    }
}

fn write(addr: u32, data: &[u8]) -> KernelBytes {
    KernelBytes { addr, data: data.to_vec() }
}

#[test]
fn slots_name_their_symbols() {
    let buffer = OutputBuffer { name: "SYNC".to_string(), size: 4, count: 2 };
    assert_eq!(buffer.output_count(), "_COMPLETION_COUNT_SYNC");
    assert_eq!(buffer.output_buffer(), "SYNC");
    let slot = buffer.get_slot(1).unwrap();
    assert_eq!(slot.size, 4);
    assert_eq!(slot.symbol_base(), "_BUFFER_SYNC");
    assert_eq!(slot.symbol_read(), "_BUFFER_SYNC_SLOT_1_READ_INDEX");
    assert_eq!(slot.symbol_write(), "_BUFFER_SYNC_WRITE_INDEX");
    assert_eq!(slot.symbol_flushed(), "_BUFFER_SYNC_FLUSHED");
    assert_eq!(slot.symbol_data(), "_BUFFER_SYNC_DATA");
    assert!(buffer.get_slot(2).is_none());
    assert_ne!(buffer.get_slot(0).unwrap().symbol_read(), slot.symbol_read());
}

#[test]
fn an_input_buffer_is_declared() {
    let mut builder = WorkloadBuilder::default();
    builder.input_buffer("a", 32);
    assert_eq!(
        builder.global,
        "\n            #[unsafe(no_mangle)]\n            static a: NocAlignment<u8, 32> = NocAlignment::new(0);\n          "
    );
    assert_eq!(builder.inputs, ["a"]);
}

#[test]
fn an_output_buffer_is_declared() {
    let mut builder = WorkloadBuilder::default();
    let buffer = builder.output_buffer("SYNC", 4, 1);
    assert_eq!(buffer, OutputBuffer { name: "SYNC".to_string(), size: 4, count: 1 });
    let expected = format!(
        "{}{}{}{}{}",
        "\n                #[unsafe(no_mangle)]\n                static _BUFFER_SYNC_SLOT_0_READ_INDEX: SYNC<u32> = SYNC::new(0);\n            ",
        "fn smallest_read_for__BUFFER_SYNC(write: u32) -> u32 {\n                    let mut max_read = _BUFFER_SYNC_SLOT_0_READ_INDEX.read();\n                    let mut max_count = buffer_count(write, max_read, 5);\n                    max_read\n}",
        "\n            #[unsafe(no_mangle)]\n            static _BUFFER_SYNC_FLUSHED: SYNC<u32> = SYNC::new(0);\n          ",
        "\n            #[unsafe(no_mangle)]\n            static _BUFFER_SYNC_WRITE_INDEX: SYNC<u32> = SYNC::new(0);\n          ",
        "\n            #[unsafe(no_mangle)]\n            static _BUFFER_SYNC_DATA: SYNC<[u8; 5]> = SYNC::new([0; 5]);\n          ",
    );
    assert_eq!(builder.global, expected);
}

#[test]
fn an_output_buffer_without_readers_reads_zero() {
    let mut builder = WorkloadBuilder::default();
    builder.output_buffer("X", 0, 0);
    assert!(builder.global.starts_with(
        "fn smallest_read_for__BUFFER_X(write: u32) -> u32 {let max_read = 0;\nmax_read\n}"
    ));
    assert!(builder.global.contains("SYNC<[u8; 1]> = SYNC::new([0; 1]);"));
}

#[test]
fn further_readers_are_compared() {
    let mut builder = WorkloadBuilder::default();
    builder.output_buffer("X", 9, 3);
    for slot in 0..3 {
        assert!(builder
            .global
            .contains(&format!("static _BUFFER_X_SLOT_{slot}_READ_INDEX: SYNC<u32> = SYNC::new(0);")));
    }
    assert!(builder.global.contains(
        "\n                let new_max_read = _BUFFER_X_SLOT_2_READ_INDEX.read();\n                let new_max_count = buffer_count(write, new_max_read, 10);\n                if new_max_count > max_count {\n                    max_read = new_max_read;\n                    max_count = new_max_count;\n                }\n                max_read\n}"
    ));
    assert_eq!(builder.global.matches("let mut max_read").count(), 1);
}

#[test]
fn loops_go_over_all_dimensions() {
    let mut builder = WorkloadBuilder::default();
    let source = builder.iterate_zip(&[2, 3], &[&[12, 4], &[3, 1]], |names: &[String]| {
        format!("{} += {};", names[0], names[1])
    });
    let lines: Vec<&str> = source.lines().collect();
    assert_eq!(
        lines,
        [
            "for _0_it in 0..2u32 {",
            "let _0_tensor_0_dim_index = _0_it * 12;",
            "let _1_tensor_0_dim_index = _0_it * 3;",
            "for _1_it in 0..3u32 {",
            "let _0_tensor_1_dim_index = _0_tensor_0_dim_index + _1_it * 4;",
            "let _1_tensor_1_dim_index = _1_tensor_0_dim_index + _1_it * 1;",
            "let _0_tensor_index = _0_tensor_1_dim_index;",
            "let _1_tensor_index = _1_tensor_1_dim_index;",
            "_0_tensor_index += _1_tensor_index;",
            "}",
            "}",
        ]
    );
    assert_eq!(builder.global, "");
}

#[test]
fn without_dimensions_there_is_no_loop() {
    let mut builder = WorkloadBuilder::default();
    let source = builder.iterate_zip(&[], &[&[]], |_: &[String]| panic!("there is no body"));
    assert_eq!(source, "");
}

#[test]
fn without_tensors_there_are_only_loops() {
    let mut builder = WorkloadBuilder::default();
    let source = builder.iterate_zip(&[-1], &[], |names: &[String]| {
        assert!(names.is_empty());
        "x".to_string()
    });
    assert_eq!(source, "for _0_it in 0..-1u32 {\nx\n}");
}

#[test]
fn a_build_has_its_files_and_its_linker_script() {
    let mut builder = WorkloadBuilder::default();
    builder.available_space = 4096;
    builder.global = "GLOBAL".to_string();
    builder.brisc = "BRISC".to_string();
    builder.trisc2 = "TRISC2".to_string();
    let build = builder.compile(
        Arch::Wormhole,
        "LENGTH = {available_space}; {available_space}",
        "/crates/runtime",
    );
    assert_eq!(build.arch, Arch::Wormhole);
    assert_eq!(build.link_script, "LENGTH = 4096; 4096");
    assert_eq!(build.files.len(), 2);
    assert_eq!(build.files[0].path, "Cargo.toml");
    assert!(build.files[0].text.contains("tensix-std = {path = \"/crates/runtime/../../../tensix-std\"}"));
    assert!(build.files[0].text.contains("crate-type = [\"cdylib\"]"));
    assert_eq!(build.files[1].path, "src/lib.rs");
    let source = &build.files[1].text;
    assert!(source.starts_with("\n        #![no_std]\n        #![no_main]\n"));
    assert!(source.contains("fn buffer_count(write: u32, read: u32, size: u32) -> u32 {\n"));
    assert!(source.contains("\n        GLOBAL\n"));
    assert!(source.contains("fn brisc_kmain() {\n            unsafe {\n                BRISC\n            }\n        }"));
    assert!(source.contains("fn trisc2_kmain() {\n            unsafe {\n                TRISC2\n            }\n        }"));
    assert!(source.contains("fn ncrisc_kmain() {\n            unsafe {\n                \n            }\n        }"));
    assert!(!source.contains("{{") && !source.contains("{global}"));

    assert_eq!(build.rewrites.len(), 2);
    assert!(matches!(&build.rewrites[0], Rewrite::Replace { start, end, replace }
        if start == "\"relocation-model\"" && end == "," && replace == "\"relocation-model\": \"pic\""));
    assert!(matches!(&build.rewrites[1], Rewrite::Add { value }
        if value == ",\n\"dynamic-linking\": true\n"));
}

#[test]
fn templates_go_by_generation() {
    assert_eq!(workload::link_template_file(Arch::Grayskull), "grayskull-kernel.x");
    assert_eq!(workload::link_template_file(Arch::Wormhole), "wormhole-kernel.x");
    assert_eq!(workload::link_template_file(Arch::Blackhole), "blackhole-kernel.x");
}

#[test]
fn writes_are_laid_out_in_one_block() {
    let workload = Workload {
        data: kernel(vec![write(0, &[1, 2, 3, 4, 5]), write(12, &[6, 7])]),
    };
    assert!(workload.is_bounded());
    let (relocations, binary) = workload.get_binary();
    assert!(relocations.is_empty());
    assert_eq!(binary, [1, 2, 3, 4, 5, 12, 0, 0, 0, 0, 0, 0, 6, 7]);
}

#[test]
fn a_short_write_leaves_its_address() {
    let workload = Workload { data: kernel(vec![write(0, &[9])]) };
    assert_eq!(workload.get_binary().1, [9, 0, 0, 0]);
    let workload = Workload { data: kernel(vec![write(2, &[])]) };
    assert_eq!(workload.get_binary().1, [2, 0, 0, 0]);
    let empty = Workload { data: kernel(Vec::new()) };
    assert_eq!(empty.get_binary().1, [0u8; 0]);
}

#[test]
fn a_symbol_is_found_where_the_workload_was_loaded() {
    let mut data = kernel(Vec::new());
    data.sym_table.insert("VALUE".to_string(), 0x20);
    let workload = Workload { data };
    let tile = Tile { addr: NocAddress { n0: (0, 0), n1: (0, 0) } };
    let loaded = LoadedWorkload { workload: workload.dupe(), tile, base_addr: 0x1000 };
    assert_eq!(loaded.data("VALUE"), 0x1020);
}

#[test]
fn a_symbol_that_is_set_again_changes() {
    let mut table = SymbolTable::new();
    table.insert("a".to_string(), 1);
    table.insert("b".to_string(), 2);
    table.insert("a".to_string(), 3);
    assert_eq!(table.get("a"), Some(3));
    assert_eq!(table.get("b"), Some(2));
    assert_eq!(table.get("c"), None);
}

#[test]
fn a_file_takes_the_place_of_the_one_at_its_path() {
    let mut files = Vec::new();
    workload::put_file(&mut files, "a", "1".to_string());
    workload::put_file(&mut files, "b", "2".to_string());
    workload::put_file(&mut files, "a", "3".to_string());
    let texts: Vec<&str> = files.iter().map(|file: &SourceFile| file.text.as_str()).collect();
    assert_eq!(texts, ["3", "2"]);
}
