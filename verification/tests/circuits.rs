use std::collections::HashMap;

use ttx_runtime::chip::{NocAddress, Tile};
use ttx_runtime::json;
use ttx_runtime::json::Json;
use ttx_runtime::netlist;
use ttx_runtime::simulator;
use ttx_runtime::simulator::{Cell, Tensix, TensixLocation};

fn at(tensix_id: usize, lut_id: usize) -> TensixLocation {
    TensixLocation { tensix_id, lut_id, offset: false }
}

const DESIGN: &str = r#"{
    "creator": "test",
    "modules": {
        "top": {
            "ports": { "clk": {}, "out": {} },
            "cells": {
                "lut0": {
                    "type": "$lut",
                    "parameters": { "LUT": "0110" },
                    "connections": { "A": [2, 3], "Y": [4] }
                },
                "ff0": {
                    "type": "$_DFFE_PP_",
                    "parameters": {},
                    "connections": { "C": [5], "D": [6], "E": [7, 99], "Q": [8] }
                }
            }
        }
    }
}"#;

#[test]
fn a_netlist_is_read() {
    let design = netlist::parse_design(DESIGN.as_bytes()).unwrap();
    assert_eq!(design.modules.len(), 1);
    assert_eq!(design.modules[0].name, "top");
    assert_eq!(design.modules[0].ports, ["clk", "out"]);
    assert_eq!(
        design.cells,
        [
            Cell::DffePp { c: 5, d: 6, e: 7, q: 8 },
            Cell::Lut2 { a: 2, b: 3, y: 4, lut: [false, true, true, false] },
        ]
    );
}

#[test]
fn what_is_no_netlist_is_refused() {
    assert!(netlist::parse_design(b"{").is_none());
    assert!(netlist::parse_design(b"[]").is_none());
    assert!(netlist::parse_design(b"{}").is_none());
    for (part, other) in [
        ("\"ports\"", "\"harbours\""),
        ("$lut", "$mux"),
        ("[2, 3]", "[2, 3, 4]"),
        ("[2, 3]", "[2, \"x\"]"),
        ("[4]", "[]"),
        ("0110", "011"),
        ("\"Q\": [8]", "\"R\": [8]"),
        ("\"parameters\": {}", "\"parameters\": 1"),
    ] {
        assert!(DESIGN.contains(part));
        assert!(netlist::parse_design(DESIGN.replace(part, other).as_bytes()).is_none(), "{other}");
    }
}

#[test]
fn a_netlist_without_cells_is_read() {
    let design = netlist::parse_design(
        br#"{"modules": {"a": {"ports": {}, "cells": {}}, "b": {"ports": {"x": 1}, "cells": {}}}}"#,
    )
    .unwrap();
    assert_eq!(design.modules.len(), 2);
    assert_eq!(design.modules[1].ports, ["x"]);
    assert!(design.cells.is_empty());
}

#[test]
fn documents_become_plain_values() {
    let document = json::parse_json(br#"{"a": [1, -2, 3.5, 18446744073709551615], "b": "x", "c": null, "d": true}"#).unwrap();
    let items = document.get("a").unwrap().items().unwrap();
    assert_eq!(items.len(), 4);
    assert_eq!(items[0].integer(), Some(1));
    assert_eq!(items[1].integer(), Some(-2));
    assert_eq!(items[2].integer(), None);
    assert_eq!(items[3].integer(), None);
    assert_eq!(document.get("b").unwrap().text().map(|t| t.as_str()), Some("x"));
    assert!(matches!(document.get("c"), Some(Json::Null)));
    assert!(matches!(document.get("d"), Some(Json::Bool(true))));
    assert!(document.get("e").is_none());
    assert!(document.items().is_none());
    assert_eq!(document.entries().unwrap().len(), 4);
    assert!(json::parse_json(b"nul").is_none());
}

#[test]
fn cells_are_read_from_plain_values() {
    let text = |t: &str| Json::Text(t.to_string());
    let list = |numbers: &[i64]| Json::List(numbers.iter().map(|n| Json::Number(Some(*n))).collect());
    let object = |entries: Vec<(&str, Json)>| {
        Json::Object(entries.into_iter().map(|(name, value)| (name.to_string(), value)).collect())
    };
    let cell = object(vec![
        ("type", text("$lut")),
        ("parameters", object(vec![("LUT", text("1x01junk"))])),
        ("connections", object(vec![("A", list(&[1, 2])), ("Y", list(&[3, 4]))])),
    ]);
    assert_eq!(
        netlist::read_cell(&cell),
        Some(Cell::Lut2 { a: 1, b: 2, y: 3, lut: [true, true, false, true] })
    );
    assert_eq!(netlist::read_cell(&Json::Null), None);
}

#[test]
fn cells_are_placed_while_there_is_room() {
    let mut group = Tensix::new_group(3, 9);
    assert_eq!(group.len(), 3);
    assert_eq!(group[2].id, 2);
    assert!(group[0].place([true; 4]));
    assert_eq!(group[0].memory, 5);
    assert!(group[0].place([false; 4]));
    assert_eq!(group[0].memory, 1);
    assert!(!group[0].place([true; 4]));
    assert_eq!(group[0].luts.len(), 2);
    assert_eq!(group[0].luts[1].state, [false; 4]);
}

#[test]
fn the_first_tensix_with_room_is_taken() {
    let mut group = Tensix::new_group(2, 8);
    let mut places = Vec::new();
    let mut not_full = 0;
    while let Some(place) = simulator::place_lut(&mut group, not_full, [true, false, true, false]) {
        not_full = place.tensix_id;
        places.push(place);
    }
    assert_eq!(places, [at(0, 0), at(1, 0)]);
    assert!(simulator::place_lut(&mut group, 7, [true; 4]).is_none());
}

#[test]
fn results_go_to_the_same_or_to_another_tensix() {
    let mut group = Tensix::new_group(2, 100);
    group[0].place([true; 4]);
    group[0].place([true; 4]);
    group[1].place([true; 4]);
    simulator::connect(&mut group, at(0, 0), at(0, 1));
    simulator::connect(&mut group, at(0, 0), TensixLocation { offset: true, ..at(1, 0) });
    assert_eq!(group[0].luts[0].local, [at(0, 1)]);
    assert_eq!(group[0].luts[0].remote, [TensixLocation { offset: true, ..at(1, 0) }]);
    assert!(group[0].luts[1].local.is_empty() && group[1].luts[0].remote.is_empty());

    let tile = |x: u8, y: u8| Tile { addr: NocAddress { n0: (x, y), n1: (0, 0) } };
    assert_eq!(
        simulator::write_push_result(6, &group[0].luts[0], &[tile(1, 2), tile(3, 4)]),
        "noc_write(3, 4, 1, !old_result_6)\n1 = !old_result_6\n"
    );
    assert_eq!(simulator::write_preamble(6), "let mut old_result_6 = false;\n");
}

fn table(a: i64, b: i64, y: i64) -> Cell {
    Cell::Lut2 { a, b, y, lut: [true, false, false, true] }
}

#[test]
fn a_circuit_is_placed_where_its_nets_are_driven() {
    let nets = HashMap::from([(1, at(1, 7)), (2, at(1, 8)), (3, at(0, 9))]);
    let cells = [table(1, 2, 3), table(3, 3, 1)];
    let (group, nets) = simulator::place_cells(Tensix::new_group(2, 8), nets, &cells).unwrap();
    assert_eq!(nets, HashMap::from([(1, at(1, 0)), (2, at(1, 8)), (3, at(0, 0))]));
    assert_eq!((group[0].memory, group[1].memory), (4, 4));
    assert_eq!((group[0].luts.len(), group[1].luts.len()), (1, 1));
    let placed = &group[0].luts[0];
    assert_eq!(placed.state, [true, false, false, true]);
    assert_eq!(placed.remote, [TensixLocation { offset: true, ..at(1, 7) }, at(1, 8)]);
    assert!(placed.local.is_empty());
    let placed = &group[1].luts[0];
    assert_eq!(placed.remote, [TensixLocation { offset: true, ..at(0, 0) }, at(0, 0)]);
    assert!(placed.local.is_empty());

    let own = HashMap::from([(1, at(1, 7))]);
    let (group, nets) = simulator::place_cells(Tensix::new_group(1, 8), own, &[table(1, 1, 1)]).unwrap();
    assert_eq!(nets, HashMap::from([(1, at(0, 0))]));
    assert_eq!(group[0].luts[0].local, [TensixLocation { offset: true, ..at(0, 0) }, at(0, 0)]);
}

#[test]
fn what_cannot_be_placed_is_refused() {
    let nets = || HashMap::from([(1, at(0, 0)), (2, at(0, 0))]);
    let place = |count: usize, nets: HashMap<i64, TensixLocation>, cells: &[Cell]| {
        simulator::place_cells(Tensix::new_group(count, 8), nets, cells).is_some()
    };
    assert!(place(0, HashMap::new(), &[]));
    assert!(place(1, nets(), &[table(1, 2, 1)]));
    assert!(!place(1, nets(), &[table(1, 2, 1), table(1, 2, 1)]));
    assert!(!place(0, nets(), &[table(1, 2, 1)]));
    assert!(!place(1, nets(), &[table(1, 2, 3)]));
    assert!(!place(1, nets(), &[table(3, 2, 1)]));
    assert!(!place(1, nets(), &[table(1, 3, 1)]));
    assert!(!place(1, HashMap::new(), &[table(1, 1, 1)]));
    assert!(!place(1, nets(), &[Cell::DffePp { c: 1, d: 2, e: 1, q: 2 }]));
}
