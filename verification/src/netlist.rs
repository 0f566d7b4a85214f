//! Reading a circuit from a netlist.

use vstd::prelude::*;

use crate::json;
use crate::json::{Json, JsonView};
use crate::simulator::{Cell, CellView};

verus! {

/// A module of a netlist: its name and its ports.
#[derive(Debug, PartialEq, Eq)]
pub struct ModuleNames {
    pub name: String,
    pub ports: Vec<String>,
}

/// A netlist: the names in it, and the cells of all its modules.
pub struct Design {
    pub modules: Vec<ModuleNames>,
    pub cells: Vec<Cell>,
}

/// The integer at the start of a list.
pub open spec fn first_integer(list: JsonView) -> Option<i64> {
    match json::list_items(list) {
        Some(items) => if items.len() > 0 {
            json::integer_of(items[0])
        } else {
            None
        },
        None => None,
    }
}

/// The net that a pin with one bit is connected to.
pub open spec fn net(connections: JsonView, pin: Seq<char>) -> Option<i64> {
    match json::member(connections, pin) {
        Some(nets) => first_integer(nets),
        None => None,
    }
}

/// The nets that a pin with two bits is connected to.
pub open spec fn net_pair(connections: JsonView, pin: Seq<char>) -> Option<(i64, i64)> {
    match json::member(connections, pin) {
        Some(nets) => match json::list_items(nets) {
            Some(items) => if items.len() == 2 {
                match (json::integer_of(items[0]), json::integer_of(items[1])) {
                    (Some(first), Some(second)) => Some((first, second)),
                    _ => None,
                }
            } else {
                None
            },
            None => None,
        },
        None => None,
    }
}

/// The table of a function of two inputs: its first four digits, of which a zero stands for false.
pub open spec fn table_of(parameters: JsonView) -> Option<Seq<bool>> {
    match json::member(parameters, "LUT"@) {
        Some(value) => match json::text_of(value) {
            Some(digits) => if digits.len() >= 4 {
                Some(Seq::new(4, |i: int| digits[i] != '0'))
            } else {
                None
            },
            None => None,
        },
        None => None,
    }
}

/// A flip-flop, by its connections.
pub open spec fn flip_flop(connections: JsonView) -> Option<CellView> {
    match (net(connections, "C"@), net(connections, "D"@), net(connections, "E"@), net(
        connections,
        "Q"@,
    )) {
        (Some(c), Some(d), Some(e), Some(q)) => Some(CellView::DffePp { c, d, e, q }),
        _ => None,
    }
}

/// A function of two inputs, by its connections and its table.
pub open spec fn lookup_table(connections: JsonView, parameters: JsonView) -> Option<CellView> {
    match (net_pair(connections, "A"@), net(connections, "Y"@), table_of(parameters)) {
        (Some((a, b)), Some(y), Some(lut)) => Some(CellView::Lut2 { a, b, y, lut }),
        _ => None,
    }
}

/// The object that an entry holds.
pub open spec fn object_member(json: JsonView, name: Seq<char>) -> Option<JsonView> {
    match json::member(json, name) {
        Some(value) => if value is Object {
            Some(value)
        } else {
            None
        },
        None => None,
    }
}

/// A cell of a netlist. There are two kinds of cells; nothing else is supported.
pub open spec fn cell_of(values: JsonView) -> Option<CellView> {
    match (object_member(values, "connections"@), object_member(values, "parameters"@)) {
        (Some(connections), Some(parameters)) => match json::member(values, "type"@) {
            Some(JsonView::Text(kind)) => if kind == "$_DFFE_PP_"@ {
                flip_flop(connections)
            } else if kind == "$lut"@ {
                lookup_table(connections, parameters)
            } else {
                None
            },
            _ => None,
        },
        _ => None,
    }
}

/// The cells of the first `count` entries, where all of them can be read.
pub open spec fn cells_of(entries: Seq<(Seq<char>, JsonView)>, count: int) -> Option<Seq<CellView>>
    decreases count,
{
    if count <= 0 {
        Some(seq![])
    } else {
        match (cells_of(entries, count - 1), cell_of(entries[count - 1].1)) {
            (Some(before), Some(cell)) => Some(before.push(cell)),
            _ => None,
        }
    }
}

/// The names of entries.
pub open spec fn names_of(entries: Seq<(Seq<char>, JsonView)>) -> Seq<Seq<char>> {
    entries.map_values(|entry: (Seq<char>, JsonView)| entry.0)
}

/// The names in the first `count` modules and all their cells, where all of them can be read.
pub open spec fn modules_of(modules: Seq<(Seq<char>, JsonView)>, count: int) -> Option<
    (Seq<(Seq<char>, Seq<Seq<char>>)>, Seq<CellView>),
>
    decreases count,
{
    if count <= 0 {
        Some((seq![], seq![]))
    } else {
        let (name, module) = modules[count - 1];
        match (
            modules_of(modules, count - 1),
            object_member(module, "ports"@),
            object_member(module, "cells"@),
        ) {
            (
                Some((names, cells)),
                Some(JsonView::Object(ports)),
                Some(JsonView::Object(entries)),
            ) => match cells_of(entries, entries.len() as int) {
                Some(more) => Some((names.push((name, names_of(ports))), cells + more)),
                None => None,
            },
            _ => None,
        }
    }
}

/// What a netlist holds.
pub open spec fn design_of(netlist: JsonView) -> Option<
    (Seq<(Seq<char>, Seq<Seq<char>>)>, Seq<CellView>),
> {
    match object_member(netlist, "modules"@) {
        Some(JsonView::Object(modules)) => modules_of(modules, modules.len() as int),
        _ => None,
    }
}

fn read_net(connections: &Json, pin: &str) -> (found: Option<i64>)
    ensures
        found == net(connections@, pin@),
{
    match connections.get(pin) {
        Some(nets) => match nets.items() {
            Some(items) => if items.len() > 0 {
                items[0].integer()
            } else {
                None
            },
            None => None,
        },
        None => None,
    }
}

fn read_net_pair(connections: &Json, pin: &str) -> (found: Option<(i64, i64)>)
    ensures
        found == net_pair(connections@, pin@),
{
    match connections.get(pin) {
        Some(nets) => match nets.items() {
            Some(items) => if items.len() == 2 {
                match (items[0].integer(), items[1].integer()) {
                    (Some(first), Some(second)) => Some((first, second)),
                    _ => None,
                }
            } else {
                None
            },
            None => None,
        },
        None => None,
    }
}

fn read_table(parameters: &Json) -> (table: Option<[bool; 4]>)
    ensures
        match table {
            Some(table) => table_of(parameters@) == Some(table@),
            None => table_of(parameters@) is None,
        },
{
    match parameters.get("LUT") {
        Some(value) => match value.text() {
            Some(digits) => {
                let digits = digits.as_str();
                if digits.unicode_len() >= 4 {
                    let table: [bool; 4] = [
                        digits.get_char(0) != '0',
                        digits.get_char(1) != '0',
                        digits.get_char(2) != '0',
                        digits.get_char(3) != '0',
                    ];
                    assert(table@ =~= Seq::new(4, |i: int| digits@[i] != '0'));
                    Some(table)
                } else {
                    None
                }
            },
            None => None,
        },
        None => None,
    }
}

fn get_object<'a>(json: &'a Json, name: &str) -> (object: Option<&'a Json>)
    ensures
        match object {
            Some(object) => object_member(json@, name@) == Some(object@),
            None => object_member(json@, name@) is None,
        },
{
    match json.get(name) {
        Some(value) => match value {
            Json::Object(_) => Some(value),
            _ => None,
        },
        None => None,
    }
}

/// Reads a cell of a netlist.
pub fn read_cell(values: &Json) -> (cell: Option<Cell>)
    ensures
        match cell {
            Some(cell) => cell_of(values@) == Some(cell@),
            None => cell_of(values@) is None,
        },
{
    let connections = match get_object(values, "connections") {
        Some(connections) => connections,
        None => {
            return None;
        },
    };
    let parameters = match get_object(values, "parameters") {
        Some(parameters) => parameters,
        None => {
            return None;
        },
    };
    let kind = match values.get("type") {
        Some(value) => match value.text() {
            Some(kind) => kind,
            None => {
                return None;
            },
        },
        None => {
            return None;
        },
    };
    if *kind == "$_DFFE_PP_".to_string() {
        match (
            read_net(connections, "C"),
            read_net(connections, "D"),
            read_net(connections, "E"),
            read_net(connections, "Q"),
        ) {
            (Some(c), Some(d), Some(e), Some(q)) => Some(Cell::DffePp { c, d, e, q }),
            _ => None,
        }
    } else if *kind == "$lut".to_string() {
        match (
            read_net_pair(connections, "A"),
            read_net(connections, "Y"),
            read_table(parameters),
        ) {
            (Some((a, b)), Some(y), Some(lut)) => Some(Cell::Lut2 { a, b, y, lut }),
            _ => None,
        }
    } else {
        None
    }
}

pub open spec fn cell_views(cells: Seq<Cell>) -> Seq<CellView> {
    cells.map_values(|cell: Cell| cell@)
}

/// Reads the cells of a module behind those that were read before.
fn read_cells(cells: &mut Vec<Cell>, module: &Json) -> (read: bool)
    ensures
        match object_member(module@, "cells"@) {
            Some(JsonView::Object(entries)) => match cells_of(entries, entries.len() as int) {
                Some(more) => read && cell_views(final(cells)@) == cell_views(old(cells)@) + more,
                None => !read,
            },
            _ => !read,
        },
{
    let entries = match get_object(module, "cells") {
        Some(object) => match object.entries() {
            Some(entries) => entries,
            None => {
                return false;
            },
        },
        None => {
            return false;
        },
    };
    let ghost views = json::object_entries(object_member(module@, "cells"@)->0)->0;
    let ghost before = cell_views(cells@);
    assert(before =~= before + seq![]);
    for i in 0..entries.len()
        invariant
            views.len() == entries@.len(),
            forall|j: int|
                0 <= j < entries@.len() ==> #[trigger] views[j] == (
                    entries@[j].0@,
                    entries@[j].1@,
                ),
            cells_of(views, i as int) matches Some(more) && cell_views(cells@) == before + more,
            object_member(module@, "cells"@) == Some(JsonView::Object(views)),
    {
        assert(views[i as int].1 == entries@[i as int].1@);
        match read_cell(&entries[i].1) {
            Some(cell) => {
                let ghost fewer = cells@;
                cells.push(cell);
                assert(cell_views(cells@) =~= cell_views(fewer).push(cell@));
            },
            None => {
                proof {
                    lemma_unreadable(views, i as int, views.len() as int);
                }
                return false;
            },
        }
    }
    true
}

/// One cell that cannot be read is enough.
proof fn lemma_unreadable(entries: Seq<(Seq<char>, JsonView)>, i: int, count: int)
    requires
        0 <= i < count,
        cell_of(entries[i].1) is None,
    ensures
        cells_of(entries, count) is None,
    decreases count,
{
    if i < count - 1 {
        lemma_unreadable(entries, i, count - 1);
    }
}

/// One module that cannot be read is enough.
proof fn lemma_unreadable_module(modules: Seq<(Seq<char>, JsonView)>, few: int, many: int)
    requires
        few <= many,
        modules_of(modules, few) is None,
    ensures
        modules_of(modules, many) is None,
    decreases many,
{
    if few < many {
        lemma_unreadable_module(modules, few, many - 1);
    }
}

pub open spec fn module_views(modules: Seq<ModuleNames>) -> Seq<(Seq<char>, Seq<Seq<char>>)> {
    modules.map_values(
        |module: ModuleNames| (module.name@, crate::workload::strings(module.ports@)),
    )
}

fn read_ports(module: &Json) -> (ports: Option<Vec<String>>)
    ensures
        match object_member(module@, "ports"@) {
            Some(JsonView::Object(entries)) => ports matches Some(ports)
                && crate::workload::strings(ports@) == names_of(entries),
            _ => ports is None,
        },
{
    let entries = match get_object(module, "ports") {
        Some(object) => match object.entries() {
            Some(entries) => entries,
            None => {
                return None;
            },
        },
        None => {
            return None;
        },
    };
    let ghost views = json::object_entries(object_member(module@, "ports"@)->0)->0;
    let mut ports: Vec<String> = Vec::new();
    for i in 0..entries.len()
        invariant
            views.len() == entries@.len(),
            forall|j: int|
                0 <= j < entries@.len() ==> #[trigger] views[j] == (
                    entries@[j].0@,
                    entries@[j].1@,
                ),
            ports@.len() == i,
            forall|j: int| 0 <= j < i ==> (#[trigger] ports@[j])@ == views[j].0,
    {
        assert(views[i as int].0 == entries@[i as int].0@);
        ports.push(entries[i].0.clone());
    }
    assert(crate::workload::strings(ports@) =~= names_of(views));
    Some(ports)
}

/// Reads a netlist. `None` where it has not the form of one, or holds a cell that is not supported.
pub fn read_design(netlist: &Json) -> (design: Option<Design>)
    ensures
        match design {
            Some(design) => design_of(netlist@) == Some(
                (module_views(design.modules@), cell_views(design.cells@)),
            ),
            None => design_of(netlist@) is None,
        },
{
    let entries = match get_object(netlist, "modules") {
        Some(object) => match object.entries() {
            Some(entries) => entries,
            None => {
                return None;
            },
        },
        None => {
            return None;
        },
    };
    let ghost views = json::object_entries(object_member(netlist@, "modules"@)->0)->0;
    let mut modules: Vec<ModuleNames> = Vec::new();
    let mut cells: Vec<Cell> = Vec::new();
    assert(module_views(modules@) =~= seq![]);
    assert(cell_views(cells@) =~= seq![]);
    for i in 0..entries.len()
        invariant
            views.len() == entries@.len(),
            forall|j: int|
                0 <= j < entries@.len() ==> #[trigger] views[j] == (
                    entries@[j].0@,
                    entries@[j].1@,
                ),
            object_member(netlist@, "modules"@) == Some(JsonView::Object(views)),
            modules_of(views, i as int) == Some((module_views(modules@), cell_views(cells@))),
    {
        assert(views[i as int] == (entries@[i as int].0@, entries@[i as int].1@));
        let ports = match read_ports(&entries[i].1) {
            Some(ports) => ports,
            None => {
                proof {
                    assert(modules_of(views, i + 1) is None);
                    lemma_unreadable_module(views, i + 1, views.len() as int);
                }
                return None;
            },
        };
        let ghost fewer_cells = cells@;
        if !read_cells(&mut cells, &entries[i].1) {
            proof {
                assert(modules_of(views, i + 1) is None);
                lemma_unreadable_module(views, i + 1, views.len() as int);
            }
            return None;
        }
        let ghost fewer = modules@;
        let module = ModuleNames { name: entries[i].0.clone(), ports };
        modules.push(module);
        assert(module_views(modules@) =~= module_views(fewer).push(
            (module.name@, crate::workload::strings(module.ports@)),
        ));
    }
    Some(Design { modules, cells })
}

/// Reads a netlist from a JSON document.
pub fn parse_design(document: &[u8]) -> (design: Option<Design>)
    ensures
        match json::json_contents(document@) {
            Some(netlist) => match design {
                Some(design) => design_of(netlist) == Some(
                    (module_views(design.modules@), cell_views(design.cells@)),
                ),
                None => design_of(netlist) is None,
            },
            None => design is None,
        },
{
    match json::parse_json(document) {
        Some(netlist) => read_design(&netlist),
        None => None,
    }
}

} // verus!
