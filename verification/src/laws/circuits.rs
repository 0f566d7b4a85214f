//! Reading a circuit and placing it.

use vstd::prelude::*;

use crate::chip::Tile;
use crate::json;
use crate::json::JsonView;
use crate::laws::texts;
use crate::netlist;
use crate::simulator;
use crate::simulator::{Cell, CellView, LutView, Placement, TensixLocation, TensixView};
use crate::text;

verus! {

/// Whether the last entry of a name in an object has a value.
pub open spec fn has_entry(json: JsonView, name: Seq<char>, value: JsonView) -> bool {
    json matches JsonView::Object(entries) && exists|i: int| #[trigger]
        is_last_entry(entries, name, i) && entries[i].1 == value
}

/// Whether the entry at `i` is the last of a name.
pub open spec fn is_last_entry(
    entries: Seq<(Seq<char>, JsonView)>,
    name: Seq<char>,
    i: int,
) -> bool {
    &&& 0 <= i < entries.len()
    &&& entries[i].0 == name
    &&& forall|j: int| i < j < entries.len() ==> (#[trigger] entries[j]).0 != name
}

proof fn lemma_field(entries: Seq<(Seq<char>, JsonView)>, name: Seq<char>)
    ensures
        json::field(entries, name) is Some ==> exists|i: int| #[trigger]
            is_last_entry(entries, name, i) && entries[i].1 == json::field(entries, name)->0,
        forall|i: int| #[trigger]
            is_last_entry(entries, name, i) ==> json::field(entries, name) == Some(entries[i].1),
    decreases entries.len(),
{
    if entries.len() > 0 {
        let last = entries.len() - 1;
        let rest = entries.drop_last();
        lemma_field(rest, name);
        if entries.last().0 == name {
            assert(is_last_entry(entries, name, last));
        } else {
            if json::field(rest, name) is Some {
                let i = choose|i: int| #[trigger]
                    is_last_entry(rest, name, i) && rest[i].1 == json::field(rest, name)->0;
                assert(entries[i] == rest[i]);
                assert forall|j: int| i < j < entries.len() implies (#[trigger] entries[j]).0
                    != name by {
                    if j < last {
                        assert(rest[j] == entries[j]);
                    }
                }
                assert(is_last_entry(entries, name, i));
            }
        }
        assert forall|i: int| #[trigger] is_last_entry(entries, name, i) implies json::field(
            entries,
            name,
        ) == Some(entries[i].1) by {
            if i < last {
                assert(entries[last].0 != name);
                assert(rest[i] == entries[i]);
                assert(is_last_entry(rest, name, i));
            }
        }
    }
}

/// The value of an entry is that of the last one of its name.
pub proof fn the_last_entry_of_a_name_counts(json: JsonView, name: Seq<char>, value: JsonView)
    ensures
        json::member(json, name) == Some(value) <==> has_entry(json, name, value),
{
    if let JsonView::Object(entries) = json {
        lemma_field(entries, name);
    }
}

/// Whether a pin is connected to a net: the first of those that are listed for it.
pub open spec fn pin_on(connections: JsonView, pin: Seq<char>, net: i64) -> bool {
    exists|nets: Seq<JsonView>| #[trigger]
        has_entry(connections, pin, JsonView::List(nets)) && nets.len() > 0 && nets[0]
            == JsonView::Number(Some(net))
}

/// Whether a pin with two bits is connected to two nets.
pub open spec fn pins_on(connections: JsonView, pin: Seq<char>, first: i64, second: i64) -> bool {
    has_entry(
        connections,
        pin,
        JsonView::List(seq![JsonView::Number(Some(first)), JsonView::Number(Some(second))]),
    )
}

/// Whether an entry of a netlist describes a cell.
pub open spec fn describes(values: JsonView, cell: CellView) -> bool {
    exists|connections: JsonView, parameters: JsonView|
        {
            &&& connections is Object && parameters is Object
            &&& #[trigger] has_entry(values, "connections"@, connections)
            &&& #[trigger] has_entry(values, "parameters"@, parameters)
            &&& match cell {
                CellView::DffePp { c, d, e, q } => {
                    &&& has_entry(values, "type"@, JsonView::Text("$_DFFE_PP_"@))
                    &&& pin_on(connections, "C"@, c)
                    &&& pin_on(connections, "D"@, d)
                    &&& pin_on(connections, "E"@, e)
                    &&& pin_on(connections, "Q"@, q)
                },
                CellView::Lut2 { a, b, y, lut } => {
                    &&& has_entry(values, "type"@, JsonView::Text("$lut"@))
                    &&& pins_on(connections, "A"@, a, b)
                    &&& pin_on(connections, "Y"@, y)
                    &&& table_says(parameters, lut)
                },
            }
        }
}

/// Whether a table's text has a nonzero digit exactly where the table is true.
pub open spec fn table_says(parameters: JsonView, lut: Seq<bool>) -> bool {
    &&& lut.len() == 4
    &&& exists|digits: Seq<char>| #[trigger]
        has_entry(parameters, "LUT"@, JsonView::Text(digits)) && digits.len() >= 4 && forall|i: int|
            0 <= i < 4 ==> (#[trigger] lut[i] <==> digits[i] != '0')
}

proof fn lemma_pin(connections: JsonView, pin: Seq<char>, net: i64)
    ensures
        netlist::net(connections, pin) == Some(net) <==> pin_on(connections, pin, net),
{
    if netlist::net(connections, pin) == Some(net) {
        let value = json::member(connections, pin)->0;
        let nets = json::list_items(value)->0;
        assert(value == JsonView::List(nets));
        the_last_entry_of_a_name_counts(connections, pin, value);
        assert(nets[0] == JsonView::Number(Some(net)));
        assert(has_entry(connections, pin, JsonView::List(nets)));
    }
    if pin_on(connections, pin, net) {
        let nets = choose|nets: Seq<JsonView>| #[trigger]
            has_entry(connections, pin, JsonView::List(nets)) && nets.len() > 0 && nets[0]
                == JsonView::Number(Some(net));
        the_last_entry_of_a_name_counts(connections, pin, JsonView::List(nets));
    }
}

proof fn lemma_pins(connections: JsonView, pin: Seq<char>, first: i64, second: i64)
    ensures
        netlist::net_pair(connections, pin) == Some((first, second)) <==> pins_on(
            connections,
            pin,
            first,
            second,
        ),
{
    let pair = seq![JsonView::Number(Some(first)), JsonView::Number(Some(second))];
    the_last_entry_of_a_name_counts(connections, pin, JsonView::List(pair));
    if netlist::net_pair(connections, pin) == Some((first, second)) {
        let value = json::member(connections, pin)->0;
        let nets = json::list_items(value)->0;
        assert(nets =~= pair);
    }
}

proof fn lemma_table(parameters: JsonView, lut: Seq<bool>)
    ensures
        netlist::table_of(parameters) == Some(lut) <==> table_says(parameters, lut),
{
    if netlist::table_of(parameters) == Some(lut) {
        let value = json::member(parameters, "LUT"@)->0;
        let digits = json::text_of(value)->0;
        the_last_entry_of_a_name_counts(parameters, "LUT"@, value);
        assert(has_entry(parameters, "LUT"@, JsonView::Text(digits)));
    }
    if table_says(parameters, lut) {
        let digits = choose|digits: Seq<char>| #[trigger]
            has_entry(parameters, "LUT"@, JsonView::Text(digits)) && digits.len() >= 4 && forall|
                i: int,
            |
                0 <= i < 4 ==> (#[trigger] lut[i] <==> digits[i] != '0');
        the_last_entry_of_a_name_counts(parameters, "LUT"@, JsonView::Text(digits));
        assert(lut =~= Seq::new(4, |i: int| digits[i] != '0'));
    }
}

/// A cell is read exactly as its entry describes it: its kind, the nets on its pins, and its table.
pub proof fn a_cell_is_read_as_it_is_described(values: JsonView, cell: CellView)
    ensures
        netlist::cell_of(values) == Some(cell) <==> describes(values, cell),
{
    reveal_strlit("$_DFFE_PP_");
    reveal_strlit("$lut");
    assert("$_DFFE_PP_"@.len() != "$lut"@.len());
    let kind = json::member(values, "type"@);
    if netlist::cell_of(values) == Some(cell) {
        let connections = json::member(values, "connections"@)->0;
        let parameters = json::member(values, "parameters"@)->0;
        the_last_entry_of_a_name_counts(values, "connections"@, connections);
        the_last_entry_of_a_name_counts(values, "parameters"@, parameters);
        the_last_entry_of_a_name_counts(values, "type"@, kind->0);
        match cell {
            CellView::DffePp { c, d, e, q } => {
                lemma_pin(connections, "C"@, c);
                lemma_pin(connections, "D"@, d);
                lemma_pin(connections, "E"@, e);
                lemma_pin(connections, "Q"@, q);
            },
            CellView::Lut2 { a, b, y, lut } => {
                lemma_pins(connections, "A"@, a, b);
                lemma_pin(connections, "Y"@, y);
                lemma_table(parameters, lut);
            },
        }
        assert(has_entry(values, "connections"@, connections) && has_entry(
            values,
            "parameters"@,
            parameters,
        ));
    }
    if describes(values, cell) {
        let (connections, parameters) = choose|connections: JsonView, parameters: JsonView|
            {
                &&& connections is Object && parameters is Object
                &&& #[trigger] has_entry(values, "connections"@, connections)
                &&& #[trigger] has_entry(values, "parameters"@, parameters)
                &&& match cell {
                    CellView::DffePp { c, d, e, q } => {
                        &&& has_entry(values, "type"@, JsonView::Text("$_DFFE_PP_"@))
                        &&& pin_on(connections, "C"@, c)
                        &&& pin_on(connections, "D"@, d)
                        &&& pin_on(connections, "E"@, e)
                        &&& pin_on(connections, "Q"@, q)
                    },
                    CellView::Lut2 { a, b, y, lut } => {
                        &&& has_entry(values, "type"@, JsonView::Text("$lut"@))
                        &&& pins_on(connections, "A"@, a, b)
                        &&& pin_on(connections, "Y"@, y)
                        &&& table_says(parameters, lut)
                    },
                }
            };
        the_last_entry_of_a_name_counts(values, "connections"@, connections);
        the_last_entry_of_a_name_counts(values, "parameters"@, parameters);
        match cell {
            CellView::DffePp { c, d, e, q } => {
                the_last_entry_of_a_name_counts(values, "type"@, JsonView::Text("$_DFFE_PP_"@));
                lemma_pin(connections, "C"@, c);
                lemma_pin(connections, "D"@, d);
                lemma_pin(connections, "E"@, e);
                lemma_pin(connections, "Q"@, q);
            },
            CellView::Lut2 { a, b, y, lut } => {
                the_last_entry_of_a_name_counts(values, "type"@, JsonView::Text("$lut"@));
                lemma_pins(connections, "A"@, a, b);
                lemma_pin(connections, "Y"@, y);
                lemma_table(parameters, lut);
            },
        }
    }
}

/// Whether a module has these ports and these cells.
pub open spec fn has_parts(
    module: JsonView,
    ports: Seq<(Seq<char>, JsonView)>,
    cells: Seq<(Seq<char>, JsonView)>,
) -> bool {
    &&& has_entry(module, "ports"@, JsonView::Object(ports))
    &&& has_entry(module, "cells"@, JsonView::Object(cells))
}

/// How many cells the first `count` modules have, where `cells[m]` are those of the module `m`.
pub open spec fn cells_before(cells: Seq<Seq<(Seq<char>, JsonView)>>, count: int) -> int
    decreases count,
{
    if count <= 0 {
        0
    } else {
        cells_before(cells, count - 1) + cells[count - 1].len()
    }
}

proof fn lemma_cells(entries: Seq<(Seq<char>, JsonView)>, count: int)
    requires
        0 <= count <= entries.len(),
    ensures
        netlist::cells_of(entries, count) is Some <==> forall|e: int|
            0 <= e < count ==> netlist::cell_of((#[trigger] entries[e]).1) is Some,
        netlist::cells_of(entries, count) matches Some(cells) ==> {
            &&& cells.len() == count
            &&& forall|e: int|
                0 <= e < count ==> netlist::cell_of((#[trigger] entries[e]).1) == Some(cells[e])
        },
    decreases count,
{
    if count > 0 {
        lemma_cells(entries, count - 1);
    }
}

proof fn lemma_cells_before(cells: Seq<Seq<(Seq<char>, JsonView)>>, few: int, many: int)
    requires
        0 <= few <= many,
    ensures
        0 <= cells_before(cells, few) <= cells_before(cells, many),
        few < many ==> cells_before(cells, few) + cells[few].len() <= cells_before(cells, many),
    decreases many,
{
    if few < many {
        lemma_cells_before(cells, few, many - 1);
    } else if many > 0 {
        lemma_cells_before(cells, many - 1, many - 1);
    }
}

proof fn lemma_modules(
    modules: Seq<(Seq<char>, JsonView)>,
    ports: Seq<Seq<(Seq<char>, JsonView)>>,
    cells: Seq<Seq<(Seq<char>, JsonView)>>,
    count: int,
)
    requires
        0 <= count <= modules.len(),
        ports.len() == modules.len(),
        cells.len() == modules.len(),
        forall|m: int|
            0 <= m < modules.len() ==> has_parts((#[trigger] modules[m]).1, ports[m], cells[m]),
    ensures
        netlist::modules_of(modules, count) matches Some((names, read)) ==> {
            &&& names.len() == count
            &&& read.len() == cells_before(cells, count)
            &&& forall|m: int|
                0 <= m < count ==> {
                    &&& (#[trigger] names[m]).0 == modules[m].0
                    &&& names[m].1.len() == ports[m].len()
                    &&& forall|p: int|
                        0 <= p < ports[m].len() ==> #[trigger] names[m].1[p] == ports[m][p].0
                }
            &&& forall|m: int, e: int|
                0 <= m < count && 0 <= e < cells[m].len() ==> netlist::cell_of(
                    (#[trigger] cells[m][e]).1,
                ) == Some(read[cells_before(cells, m) + e])
        },
        netlist::modules_of(modules, count) is None ==> exists|m: int, e: int|
            0 <= m < count && 0 <= e < cells[m].len() && netlist::cell_of(
                (#[trigger] cells[m][e]).1,
            ) is None,
    decreases count,
{
    if count > 0 {
        lemma_modules(modules, ports, cells, count - 1);
        let last = count - 1;
        let module = modules[last].1;
        assert(has_parts(modules[last].1, ports[last], cells[last]));
        the_last_entry_of_a_name_counts(module, "ports"@, JsonView::Object(ports[last]));
        the_last_entry_of_a_name_counts(module, "cells"@, JsonView::Object(cells[last]));
        lemma_cells(cells[last], cells[last].len() as int);
        if netlist::modules_of(modules, count) is Some {
            let before = netlist::modules_of(modules, count - 1)->0;
            let more = netlist::cells_of(cells[last], cells[last].len() as int)->0;
            let (names, read) = netlist::modules_of(modules, count)->0;
            assert(read == before.1 + more);
            assert forall|m: int, e: int|
                0 <= m < count && 0 <= e < cells[m].len() implies netlist::cell_of(
                (#[trigger] cells[m][e]).1,
            ) == Some(read[cells_before(cells, m) + e]) by {
                if m < last {
                    lemma_cells_before(cells, m, last);
                }
            }
            assert forall|m: int| 0 <= m < count implies {
                &&& (#[trigger] names[m]).0 == modules[m].0
                &&& names[m].1.len() == ports[m].len()
                &&& forall|p: int|
                    0 <= p < ports[m].len() ==> #[trigger] names[m].1[p] == ports[m][p].0
            } by {
                if m < last {
                    assert(names[m] == before.0[m]);
                } else {
                    assert(names[m].1 == netlist::names_of(ports[m]));
                }
            }
        }
    }
}

/// A netlist gives all cells of all its modules, in the order of the modules and of their entries,
/// each as it is described, and the names of all modules and of their ports. It is refused only if an
/// entry describes no cell.
pub proof fn every_cell_of_every_module_is_read(
    design: JsonView,
    modules: Seq<(Seq<char>, JsonView)>,
    ports: Seq<Seq<(Seq<char>, JsonView)>>,
    cells: Seq<Seq<(Seq<char>, JsonView)>>,
)
    requires
        has_entry(design, "modules"@, JsonView::Object(modules)),
        ports.len() == modules.len(),
        cells.len() == modules.len(),
        forall|m: int|
            0 <= m < modules.len() ==> has_parts((#[trigger] modules[m]).1, ports[m], cells[m]),
    ensures
        netlist::design_of(design) matches Some((names, read)) ==> {
            &&& names.len() == modules.len()
            &&& read.len() == cells_before(cells, modules.len() as int)
            &&& forall|m: int|
                0 <= m < modules.len() ==> {
                    &&& (#[trigger] names[m]).0 == modules[m].0
                    &&& names[m].1.len() == ports[m].len()
                    &&& forall|p: int|
                        0 <= p < ports[m].len() ==> #[trigger] names[m].1[p] == ports[m][p].0
                }
            &&& forall|m: int, e: int|
                0 <= m < modules.len() && 0 <= e < cells[m].len() ==> describes(
                    (#[trigger] cells[m][e]).1,
                    read[cells_before(cells, m) + e],
                )
            &&& forall|m: int|
                0 <= m < modules.len() ==> 0 <= cells_before(cells, m) <= read.len() - (
                #[trigger] cells[m]).len()
        },
        netlist::design_of(design) is None ==> exists|m: int, e: int|
            0 <= m < modules.len() && 0 <= e < cells[m].len() && forall|cell: CellView|
                !describes((#[trigger] cells[m][e]).1, cell),
{
    the_last_entry_of_a_name_counts(design, "modules"@, JsonView::Object(modules));
    let count = modules.len() as int;
    lemma_modules(modules, ports, cells, count);
    match netlist::design_of(design) {
        Some((names, read)) => {
            assert(netlist::modules_of(modules, count) == Some((names, read)));
            assert forall|m: int| 0 <= m < modules.len() implies 0 <= cells_before(cells, m)
                <= read.len() - (#[trigger] cells[m]).len() by {
                lemma_cells_before(cells, m, count);
            }
            assert forall|m: int| 0 <= m < modules.len() implies {
                &&& (#[trigger] names[m]).0 == modules[m].0
                &&& names[m].1.len() == ports[m].len()
                &&& forall|p: int|
                    0 <= p < ports[m].len() ==> #[trigger] names[m].1[p] == ports[m][p].0
            } by {
            }
            assert forall|m: int, e: int|
                0 <= m < modules.len() && 0 <= e < cells[m].len() implies describes(
                (#[trigger] cells[m][e]).1,
                read[cells_before(cells, m) + e],
            ) by {
                a_cell_is_read_as_it_is_described(
                    cells[m][e].1,
                    read[cells_before(cells, m) + e],
                );
            }
        },
        None => {
            let (m, e) = choose|m: int, e: int|
                0 <= m < count && 0 <= e < cells[m].len() && netlist::cell_of(
                    (#[trigger] cells[m][e]).1,
                ) is None;
            assert forall|cell: CellView| !describes(cells[m][e].1, cell) by {
                a_cell_is_read_as_it_is_described(cells[m][e].1, cell);
            }
        },
    }
}

/// A netlist without modules, or with one that lacks ports or cells, is refused.
pub proof fn a_netlist_without_its_parts_is_refused(
    design: JsonView,
    modules: Seq<(Seq<char>, JsonView)>,
    m: int,
)
    ensures
        (forall|value: Seq<(Seq<char>, JsonView)>|
            !#[trigger] has_entry(design, "modules"@, JsonView::Object(value)))
            ==> netlist::design_of(design) is None,
        has_entry(design, "modules"@, JsonView::Object(modules)) && 0 <= m < modules.len() && (
        forall|ports: Seq<(Seq<char>, JsonView)>, cells: Seq<(Seq<char>, JsonView)>|
            !#[trigger] has_parts(modules[m].1, ports, cells)) ==> netlist::design_of(design)
            is None,
{
    if netlist::design_of(design) is Some {
        let value = json::member(design, "modules"@)->0;
        the_last_entry_of_a_name_counts(design, "modules"@, value);
        if has_entry(design, "modules"@, JsonView::Object(modules)) && 0 <= m < modules.len() {
            the_last_entry_of_a_name_counts(design, "modules"@, JsonView::Object(modules));
            lemma_parts(modules, modules.len() as int, m);
        }
    }
}

proof fn lemma_parts(modules: Seq<(Seq<char>, JsonView)>, count: int, m: int)
    requires
        0 <= m < count <= modules.len(),
        netlist::modules_of(modules, count) is Some,
    ensures
        exists|ports: Seq<(Seq<char>, JsonView)>, cells: Seq<(Seq<char>, JsonView)>| #[trigger]
            has_parts(modules[m].1, ports, cells),
    decreases count,
{
    if m < count - 1 {
        lemma_parts(modules, count - 1, m);
    } else {
        let module = modules[m].1;
        let ports = json::member(module, "ports"@)->0;
        let cells = json::member(module, "cells"@)->0;
        the_last_entry_of_a_name_counts(module, "ports"@, ports);
        the_last_entry_of_a_name_counts(module, "cells"@, cells);
        assert(has_parts(module, ports->Object_0, cells->Object_0));
    }
}

/// Where a cell sends its result among `targets`: `remote` or not, in their order.
pub open spec fn sent(
    targets: Seq<TensixLocation>,
    tensix_id: usize,
    remote: bool,
) -> Seq<TensixLocation>
    decreases targets.len(),
{
    if targets.len() == 0 {
        seq![]
    } else {
        let before = sent(targets.drop_last(), tensix_id, remote);
        if (targets.last().tensix_id != tensix_id) == remote {
            before.push(targets.last())
        } else {
            before
        }
    }
}

/// A placed cell is the new one behind all others of the first Tensix that has room, counted from the
/// last that was not full. It keeps its table, and sends its result to where its two inputs are
/// driven from: over the network exactly where that is another Tensix. Its net is then driven from
/// it, and nothing else changes.
pub proof fn a_cell_goes_to_the_first_tensix_with_room(
    before: Placement,
    after: Placement,
    a: i64,
    b: i64,
    y: i64,
    lut: [bool; 4],
)
    requires
        0 <= before.not_full,
        simulator::holdable(before.grid),
        simulator::place_cell(before, Cell::Lut2 { a, b, y, lut }) == Some(after),
    ensures
        ({
            let at = after.nets[y];
            let id = at.tensix_id as int;
            let first = TensixLocation { offset: true, ..after.nets[a] };
            let second = after.nets[b];
            &&& after.not_full == id
            &&& !at.offset
            &&& before.not_full <= id < before.grid.len()
            &&& before.grid[id].memory > 4
            &&& forall|j: int|
                before.not_full <= j < id ==> (#[trigger] before.grid[j]).memory <= 4
            &&& at.lut_id == before.grid[id].luts.len()
            &&& after.grid.len() == before.grid.len()
            &&& after.grid[id].id == before.grid[id].id
            &&& after.grid[id].memory == before.grid[id].memory - 4
            &&& after.grid[id].luts.len() == before.grid[id].luts.len() + 1
            &&& after.grid[id].luts.drop_last() == before.grid[id].luts
            &&& after.grid[id].luts.last().state == lut
            &&& after.grid[id].luts.last().remote == sent(seq![first, second], at.tensix_id, true)
            &&& after.grid[id].luts.last().local == sent(seq![first, second], at.tensix_id, false)
            &&& forall|j: int|
                0 <= j < before.grid.len() && j != id ==> #[trigger] after.grid[j]
                    == before.grid[j]
            &&& forall|net: i64|
                net != y ==> (after.nets.contains_key(net) <==> before.nets.contains_key(net))
                    && #[trigger] after.nets[net] == before.nets[net]
        }),
{
    lemma_room(before.grid, before.not_full);
    let id = simulator::first_with_room(before.grid, before.not_full)->0;
    let at = simulator::next_place(before.grid, id);
    assert(after.nets[y] == at);
    assert(before.grid[id].memory >= 0);
    let first = TensixLocation { offset: true, ..after.nets[a] };
    let second = after.nets[b];
    let fresh = LutView { state: lut, remote: seq![], local: seq![] };
    let one = simulator::with_target(fresh, at.tensix_id != first.tensix_id, first);
    let two = simulator::with_target(one, at.tensix_id != second.tensix_id, second);
    let placed = before.grid.update(id, simulator::with_lut(before.grid[id], lut));
    assert(placed[id].luts[at.lut_id as int] == fresh);
    let linked = simulator::with_connection(placed, at, first);
    assert(linked[id].luts[at.lut_id as int] == one);
    assert(after.grid[id].luts.last() == two);
    assert(after.grid[id].luts.drop_last() =~= before.grid[id].luts);
    lemma_sent(first, second, at.tensix_id, true);
    lemma_sent(first, second, at.tensix_id, false);
    assert(two.remote =~= sent(seq![first, second], at.tensix_id, true));
    assert(two.local =~= sent(seq![first, second], at.tensix_id, false));
}

proof fn lemma_sent(
    first: TensixLocation,
    second: TensixLocation,
    tensix_id: usize,
    remote: bool,
)
    ensures
        sent(seq![first, second], tensix_id, remote) == (if (first.tensix_id != tensix_id)
            == remote {
            seq![first]
        } else {
            seq![]
        }) + (if (second.tensix_id != tensix_id) == remote {
            seq![second]
        } else {
            seq![]
        }),
{
    let both = seq![first, second];
    assert(both.drop_last() =~= seq![first]);
    assert(seq![first].drop_last() =~= seq![]);
    assert(sent(seq![], tensix_id, remote) =~= seq![]);
    let one = sent(seq![first], tensix_id, remote);
    assert(one =~= if (first.tensix_id != tensix_id) == remote {
        seq![first]
    } else {
        seq![]
    });
    assert(sent(both, tensix_id, remote) =~= one + (if (second.tensix_id != tensix_id) == remote {
        seq![second]
    } else {
        seq![]
    }));
}

proof fn lemma_room(grid: Seq<TensixView>, first: int)
    requires
        0 <= first,
    ensures
        match simulator::first_with_room(grid, first) {
            Some(id) => {
                &&& first <= id < grid.len()
                &&& grid[id].memory > 4
                &&& forall|j: int| first <= j < id ==> (#[trigger] grid[j]).memory <= 4
            },
            None => forall|j: int| first <= j < grid.len() ==> (#[trigger] grid[j]).memory <= 4,
        },
    decreases grid.len() - first,
{
    if first < grid.len() && grid[first].memory <= 4 {
        lemma_room(grid, first + 1);
    }
}

/// A table is refused only where no Tensix from the last that was not full on has room, where nothing
/// drove its net before, or where nothing drives one of its inputs. A flip-flop always is.
pub proof fn a_cell_is_refused_for_want_of_room_or_nets(before: Placement, cell: Cell)
    requires
        0 <= before.not_full,
    ensures
        cell is DffePp ==> simulator::place_cell(before, cell) is None,
        cell matches Cell::Lut2 { a, b, y, lut } ==> (simulator::place_cell(before, cell) is None
            <==> {
            ||| forall|j: int|
                before.not_full <= j < before.grid.len() ==> (#[trigger] before.grid[j]).memory <= 4
            ||| !before.nets.contains_key(y)
            ||| !before.nets.contains_key(a) && a != y
            ||| !before.nets.contains_key(b) && b != y
        }),
{
    lemma_room(before.grid, before.not_full);
    match simulator::first_with_room(before.grid, before.not_full) {
        Some(id) => {
            assert(before.grid[id].memory > 4);
        },
        None => {},
    }
}

/// Cells are placed one after the other: what is placed of a circuit is placed of its start, with the
/// next cell on top.
pub proof fn cells_are_placed_in_order(start: Placement, cells: Seq<Cell>, count: int)
    requires
        0 <= count < cells.len(),
    ensures
        simulator::place_first(start, cells, 0) == Some(start),
        match simulator::place_first(start, cells, count) {
            Some(placed) => simulator::place_first(start, cells, count + 1)
                == simulator::place_cell(placed, cells[count]),
            None => simulator::place_first(start, cells, count + 1) is None,
        },
{
}

proof fn lemma_remote(
    id: int,
    tiles: Seq<Tile>,
    remote: Seq<TensixLocation>,
    count: int,
    i: int,
)
    requires
        0 <= i < count,
    ensures
        texts::holds(
            simulator::remote_lines(id, tiles, remote, count),
            simulator::remote_line(id, tiles[remote[i].tensix_id as int], remote[i]),
        ),
    decreases count,
{
    let before = simulator::remote_lines(id, tiles, remote, count - 1);
    let last = simulator::remote_line(
        id,
        tiles[remote[count - 1].tensix_id as int],
        remote[count - 1],
    );
    if i == count - 1 {
        assert(before + last =~= before + last + seq![]);
    } else {
        lemma_remote(id, tiles, remote, count - 1, i);
        let line = simulator::remote_line(id, tiles[remote[i].tensix_id as int], remote[i]);
        texts::parts_of_parts_are_parts(seq![], before, last, line);
        assert(seq![] + before + last =~= before + last);
    }
}

proof fn lemma_local(id: int, local: Seq<TensixLocation>, count: int, i: int)
    requires
        0 <= i < count,
    ensures
        texts::holds(
            simulator::local_lines(id, local, count),
            simulator::local_line(id, local[i]),
        ),
    decreases count,
{
    let before = simulator::local_lines(id, local, count - 1);
    let last = simulator::local_line(id, local[count - 1]);
    if i == count - 1 {
        assert(before + last =~= before + last + seq![]);
    } else {
        lemma_local(id, local, count - 1, i);
        texts::parts_of_parts_are_parts(seq![], before, last, simulator::local_line(id, local[i]));
        assert(seq![] + before + last =~= before + last);
    }
}

/// A changed result is sent to every cell that takes it: to one on another Tensix by a write over the
/// network to that Tensix, at the place of the input that is meant, and to one on the same Tensix by
/// an assignment.
pub proof fn a_result_is_sent_to_every_target(
    id: int,
    tiles: Seq<Tile>,
    remote: Seq<TensixLocation>,
    local: Seq<TensixLocation>,
)
    ensures
        ({
            let source = simulator::remote_lines(id, tiles, remote, remote.len() as int)
                + simulator::local_lines(id, local, local.len() as int);
            &&& forall|i: int|
                0 <= i < remote.len() ==> {
                    let to = #[trigger] remote[i];
                    let tile = tiles[to.tensix_id as int];
                    texts::holds(
                        source,
                        "noc_write("@ + text::decimal(tile.addr.n0.0 as int) + ", "@
                            + text::decimal(tile.addr.n0.1 as int) + ", "@ + text::decimal(
                            if to.offset {
                                to.lut_id + 1
                            } else {
                                to.lut_id as int
                            },
                        ) + ", !old_result_"@ + text::decimal(id) + ")\n"@,
                    )
                }
            &&& forall|i: int|
                0 <= i < local.len() ==> texts::holds(
                    source,
                    text::decimal((#[trigger] local[i]).lut_id as int) + " = !old_result_"@
                        + text::decimal(id) + "\n"@,
                )
        }),
{
    let far = simulator::remote_lines(id, tiles, remote, remote.len() as int);
    let near = simulator::local_lines(id, local, local.len() as int);
    assert forall|i: int| 0 <= i < remote.len() implies {
        let to = #[trigger] remote[i];
        let tile = tiles[to.tensix_id as int];
        texts::holds(
            far + near,
            "noc_write("@ + text::decimal(tile.addr.n0.0 as int) + ", "@ + text::decimal(
                tile.addr.n0.1 as int,
            ) + ", "@ + text::decimal(
                if to.offset {
                    to.lut_id + 1
                } else {
                    to.lut_id as int
                },
            ) + ", !old_result_"@ + text::decimal(id) + ")\n"@,
        )
    } by {
        let to = remote[i];
        let tile = tiles[to.tensix_id as int];
        lemma_remote(id, tiles, remote, remote.len() as int, i);
        texts::parts_of_parts_are_parts(seq![], far, near, simulator::remote_line(id, tile, to));
        assert(seq![] + far + near =~= far + near);
    }
    assert forall|i: int| 0 <= i < local.len() implies texts::holds(
        far + near,
        text::decimal((#[trigger] local[i]).lut_id as int) + " = !old_result_"@ + text::decimal(id)
            + "\n"@,
    ) by {
        lemma_local(id, local, local.len() as int, i);
        texts::parts_of_parts_are_parts(far, near, seq![], simulator::local_line(id, local[i]));
        assert(far + near + seq![] =~= far + near);
    }
}

/// The result that is sent is the variable that was declared for the cell: false at first, and
/// another for every cell. Where there are no targets, nothing is sent.
pub proof fn results_are_kept_apart(id: int, other: int, tiles: Seq<Tile>)
    requires
        0 <= id,
        0 <= other,
    ensures
        simulator::result_line(id) == "let mut "@ + ("old_result_"@ + text::decimal(id))
            + " = false;\n"@,
        simulator::result_line(id) == simulator::result_line(other) ==> id == other,
        simulator::remote_lines(id, tiles, seq![], 0).len() == 0,
        simulator::local_lines(id, seq![], 0).len() == 0,
{
    reveal_strlit("let mut ");
    reveal_strlit("old_result_");
    reveal_strlit("let mut old_result_");
    reveal_strlit(" = false;\n");
    reveal_strlit("");
    let head = "let mut old_result_"@;
    let tail = " = false;\n"@;
    assert(simulator::result_line(id) =~= "let mut "@ + ("old_result_"@ + text::decimal(id))
        + tail);
    if simulator::result_line(id) == simulator::result_line(other) {
        let line = simulator::result_line(id);
        let inner = line.subrange(head.len() as int, line.len() - tail.len());
        assert(inner =~= text::decimal(id));
        assert(inner =~= text::decimal(other));
        text::decimal_is_injective(id, other);
    }
}

} // verus!
