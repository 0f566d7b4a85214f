//! Simulating a circuit on a grid of Tensixes: its cells, read from a netlist, and where they are
//! placed.

use vstd::prelude::*;

use std::collections::HashMap;

use crate::chip::{NocId, Tile};
use crate::text;

verus! {

/// A cell of a circuit, with the numbers of the nets that it is connected to.
#[derive(Clone, Copy, Debug, PartialEq, Eq)]
pub enum Cell {
    /// A positive edge D-type flip-flop with positive polarity enable.
    DffePp { c: i64, d: i64, e: i64, q: i64 },
    /// A function of two inputs, by its table.
    Lut2 { a: i64, b: i64, y: i64, lut: [bool; 4] },
}

/// A cell as a value.
pub enum CellView {
    DffePp { c: i64, d: i64, e: i64, q: i64 },
    Lut2 { a: i64, b: i64, y: i64, lut: Seq<bool> },
}

impl View for Cell {
    type V = CellView;

    open spec fn view(&self) -> CellView {
        match *self {
            Cell::DffePp { c, d, e, q } => CellView::DffePp { c, d, e, q },
            Cell::Lut2 { a, b, y, lut } => CellView::Lut2 { a, b, y, lut: lut@ },
        }
    }
}

/// Where a result is sent on another Tensix.
#[derive(Clone, Copy, Debug, PartialEq, Eq)]
pub struct LutRemoteOutput {
    pub noc: bool,
    pub x: u8,
    pub y: u8,
    pub address: u32,
}

#[derive(Clone, Copy, Debug, PartialEq, Eq)]
pub struct Lut2 {
    pub input_0: u32,
    pub input_1: u32,
    pub state: [bool; 4],
}

#[derive(Debug, PartialEq, Eq)]
pub struct Lut2Local {
    pub data: Lut2,
    pub local: Vec<u32>,
}

#[derive(Debug, PartialEq, Eq)]
pub struct Lut2Remote {
    pub data: Lut2,
    pub remote: Vec<LutRemoteOutput>,
    pub local: Vec<u32>,
}

#[derive(Debug, PartialEq, Eq)]
pub struct RemoteCore {
    pub instructions: Vec<Lut2Remote>,
}

#[derive(Debug, PartialEq, Eq)]
pub struct Core {
    pub instructions: Vec<Lut2Local>,
}

/// A cell that was placed, and where its result goes.
pub struct Lut2Builder {
    pub state: [bool; 4],
    /// Cells on other Tensixes.
    pub remote: Vec<TensixLocation>,
    /// Cells on the same Tensix.
    pub local: Vec<TensixLocation>,
}

/// A placed cell as a value.
#[verifier::ext_equal]
pub struct LutView {
    pub state: [bool; 4],
    pub remote: Seq<TensixLocation>,
    pub local: Seq<TensixLocation>,
}

impl View for Lut2Builder {
    type V = LutView;

    open spec fn view(&self) -> LutView {
        LutView { state: self.state, remote: self.remote@, local: self.local@ }
    }
}

/// A Tensix with the cells that were placed on it.
pub struct Tensix {
    pub id: usize,
    /// How much memory is left.
    pub memory: usize,
    pub luts: Vec<Lut2Builder>,
}

/// A Tensix as a value.
#[verifier::ext_equal]
pub struct TensixView {
    pub id: int,
    pub memory: int,
    pub luts: Seq<LutView>,
}

impl View for Tensix {
    type V = TensixView;

    open spec fn view(&self) -> TensixView {
        TensixView {
            id: self.id as int,
            memory: self.memory as int,
            luts: Seq::new(self.luts@.len(), |i: int| self.luts@[i]@),
        }
    }
}

/// A grid of Tensixes as a value.
pub open spec fn grid(tensix: Seq<Tensix>) -> Seq<TensixView> {
    Seq::new(tensix.len(), |i: int| tensix[i]@)
}

/// Where a cell was placed, and which of its inputs is meant.
#[derive(Clone, Copy, Debug, PartialEq, Eq)]
pub struct TensixLocation {
    pub tensix_id: usize,
    pub lut_id: usize,
    pub offset: bool,
}

/// The memory that a placed cell takes.
pub const LUT_MEMORY: usize = 4;

/// A Tensix after a cell was placed on it whose result goes nowhere yet.
pub open spec fn with_lut(tensix: TensixView, state: [bool; 4]) -> TensixView {
    TensixView {
        memory: tensix.memory - LUT_MEMORY,
        luts: tensix.luts.push(LutView { state, remote: seq![], local: seq![] }),
        ..tensix
    }
}

impl Tensix {
    /// A grid of `count` empty Tensixes with `l1` bytes of memory each.
    pub fn new_group(count: usize, l1: usize) -> (group: Vec<Tensix>)
        ensures
            grid(group@) == Seq::new(
                count as nat,
                |i: int| (TensixView { id: i, memory: l1 as int, luts: seq![] }),
            ),
    {
        let mut group: Vec<Tensix> = Vec::new();
        for i in 0..count
            invariant
                group@.len() == i,
                forall|j: int|
                    0 <= j < i ==> (#[trigger] group@[j])@ == (TensixView {
                        id: j,
                        memory: l1 as int,
                        luts: seq![],
                    }),
        {
            let tensix = Tensix { id: i, memory: l1, luts: Vec::new() };
            assert(tensix@.luts =~= seq![]);
            group.push(tensix);
        }
        assert(grid(group@) =~= Seq::new(
            count as nat,
            |i: int| (TensixView { id: i, memory: l1 as int, luts: seq![] }),
        ));
        group
    }

    /// Places a cell, if more memory is left than it takes.
    pub fn place(&mut self, state: [bool; 4]) -> (placed: bool)
        ensures
            placed == (old(self).memory > LUT_MEMORY),
            final(self)@ == if placed {
                with_lut(old(self)@, state)
            } else {
                old(self)@
            },
    {
        if self.memory > LUT_MEMORY {
            let lut = Lut2Builder { state, remote: Vec::new(), local: Vec::new() };
            assert(lut@ =~= LutView { state, remote: seq![], local: seq![] });
            self.luts.push(lut);
            self.memory = self.memory - LUT_MEMORY;
            assert(self@ =~= with_lut(old(self)@, state));
            true
        } else {
            false
        }
    }
}

/// Whether a location is that of a placed cell.
pub open spec fn placed_at(grid: Seq<TensixView>, at: TensixLocation) -> bool {
    &&& at.tensix_id < grid.len()
    &&& at.lut_id < grid[at.tensix_id as int].luts.len()
}

/// A placed cell whose result goes to one more place: over the network where that is on another
/// Tensix.
pub open spec fn with_target(lut: LutView, remote: bool, to: TensixLocation) -> LutView {
    if remote {
        LutView { remote: lut.remote.push(to), ..lut }
    } else {
        LutView { local: lut.local.push(to), ..lut }
    }
}

/// A grid where the result of the cell at `from` also goes to the cell at `to`.
pub open spec fn with_connection(
    grid: Seq<TensixView>,
    from: TensixLocation,
    to: TensixLocation,
) -> Seq<TensixView> {
    let tensix = grid[from.tensix_id as int];
    let lut = with_target(tensix.luts[from.lut_id as int], from.tensix_id != to.tensix_id, to);
    grid.update(
        from.tensix_id as int,
        TensixView { luts: tensix.luts.update(from.lut_id as int, lut), ..tensix },
    )
}

/// Sends the result of the cell at `from` to the cell at `to`: over the network where that is on
/// another Tensix.
pub fn connect(tensix: &mut [Tensix], from: TensixLocation, to: TensixLocation)
    requires
        placed_at(grid(old(tensix)@), from),
    ensures
        grid(final(tensix)@) == with_connection(grid(old(tensix)@), from, to),
{
    if from.tensix_id == to.tensix_id {
        tensix[from.tensix_id].luts[from.lut_id].local.push(to);
    } else {
        tensix[from.tensix_id].luts[from.lut_id].remote.push(to);
    }
    proof {
        let id = from.tensix_id as int;
        let after = with_connection(grid(old(tensix)@), from, to);
        assert(tensix@[id]@.luts[from.lut_id as int] =~= after[id].luts[from.lut_id as int]);
        assert(tensix@[id]@.luts =~= after[id].luts);
        assert(tensix@[id]@ =~= after[id]);
        assert(grid(tensix@) =~= after);
    }
}

/// The first Tensix from `first` on that a cell can be placed on.
pub open spec fn first_with_room(grid: Seq<TensixView>, first: int) -> Option<int>
    decreases grid.len() - first,
{
    if first >= grid.len() {
        None
    } else if grid[first].memory > LUT_MEMORY {
        Some(first)
    } else {
        first_with_room(grid, first + 1)
    }
}

/// Where the next cell on the Tensix `id` goes.
pub open spec fn next_place(grid: Seq<TensixView>, id: int) -> TensixLocation {
    TensixLocation { tensix_id: id as usize, lut_id: grid[id].luts.len() as usize, offset: false }
}

/// Places a cell on the first Tensix from `not_full_tensix` on that has room for it.
pub fn place_lut(tensix: &mut Vec<Tensix>, not_full_tensix: usize, lut: [bool; 4]) -> (location:
    Option<TensixLocation>)
    ensures
        match first_with_room(grid(old(tensix)@), not_full_tensix as int) {
            None => location is None && final(tensix)@ == old(tensix)@,
            Some(id) => {
                &&& location == Some(next_place(grid(old(tensix)@), id))
                &&& (location->0).tensix_id == id
                &&& grid(final(tensix)@) == grid(old(tensix)@).update(
                    id,
                    with_lut(grid(old(tensix)@)[id], lut),
                )
            },
        },
        location matches Some(at) ==> placed_at(grid(final(tensix)@), at),
{
    let mut id: usize = not_full_tensix;
    while id < tensix.len()
        invariant
            tensix@ == old(tensix)@,
            first_with_room(grid(tensix@), not_full_tensix as int) == first_with_room(
                grid(tensix@),
                id as int,
            ),
        decreases tensix@.len() - id,
    {
        if tensix[id].memory > LUT_MEMORY {
            let lut_id: usize = tensix[id].luts.len();
            let placed = tensix[id].place(lut);
            assert(grid(tensix@) =~= grid(old(tensix)@).update(
                id as int,
                with_lut(grid(old(tensix)@)[id as int], lut),
            ));
            return Some(TensixLocation { tensix_id: id, lut_id, offset: false });
        }
        id = id + 1;
    }
    None
}

/// How far the placing of a circuit has come.
pub struct Placement {
    pub grid: Seq<TensixView>,
    /// Where the cells are that drive the nets.
    pub nets: Map<i64, TensixLocation>,
    /// The first Tensix that is not known to be full.
    pub not_full: int,
}

/// A placement after one more cell. There is none where the cell is a flip-flop, where no Tensix has
/// room for it, where nothing drove its net before, and where nothing drives one of its inputs.
pub open spec fn place_cell(placement: Placement, cell: Cell) -> Option<Placement> {
    match cell {
        Cell::DffePp { .. } => None,
        Cell::Lut2 { a, b, y, lut } => match first_with_room(placement.grid, placement.not_full) {
            None => None,
            Some(id) => {
                let output = next_place(placement.grid, id);
                let nets = placement.nets.insert(y, output);
                if placement.nets.contains_key(y) && nets.contains_key(a) && nets.contains_key(b) {
                    let placed = placement.grid.update(id, with_lut(placement.grid[id], lut));
                    let first = TensixLocation { offset: true, ..nets[a] };
                    Some(
                        Placement {
                            grid: with_connection(
                                with_connection(placed, output, first),
                                output,
                                nets[b],
                            ),
                            nets,
                            not_full: id,
                        },
                    )
                } else {
                    None
                }
            },
        },
    }
}

/// A placement after the first `count` cells, if all of them can be placed.
pub open spec fn place_first(placement: Placement, cells: Seq<Cell>, count: int) -> Option<Placement>
    decreases count,
{
    if count <= 0 {
        Some(placement)
    } else {
        match place_first(placement, cells, count - 1) {
            Some(placement) => place_cell(placement, cells[count - 1]),
            None => None,
        }
    }
}

/// Where one cell cannot be placed, the circuit cannot.
proof fn lemma_place_first_stops(placement: Placement, cells: Seq<Cell>, count: int, more: int)
    requires
        count <= more,
        place_first(placement, cells, count) is None,
    ensures
        place_first(placement, cells, more) is None,
    decreases more - count,
{
    if count < more {
        lemma_place_first_stops(placement, cells, count + 1, more);
    }
}

/// Places the cells of a circuit on a grid, and notes in `nets` which of them drives each net.
pub fn place_cells(
    tensix: Vec<Tensix>,
    nets: HashMap<i64, TensixLocation>,
    cells: &[Cell],
) -> (placed: Option<(Vec<Tensix>, HashMap<i64, TensixLocation>)>)
    ensures
        ({
            let start = Placement { grid: grid(tensix@), nets: nets@, not_full: 0 };
            match place_first(start, cells@, cells@.len() as int) {
                None => placed is None,
                Some(placement) => {
                    &&& placed is Some
                    &&& grid((placed->0).0@) == placement.grid
                    &&& (placed->0).1@ == placement.nets
                },
            }
        }),
{
    broadcast use vstd::std_specs::hash::group_hash_axioms;

    let ghost start = Placement { grid: grid(tensix@), nets: nets@, not_full: 0 };
    let mut group = tensix;
    let mut driven = nets;
    let mut not_full: usize = 0;
    for i in 0..cells.len()
        invariant
            start == (Placement { grid: grid(tensix@), nets: nets@, not_full: 0 }),
            place_first(start, cells@, i as int) == Some(
                Placement { grid: grid(group@), nets: driven@, not_full: not_full as int },
            ),
    {
        broadcast use vstd::std_specs::hash::group_hash_axioms;

        proof {
            if place_first(start, cells@, i + 1) is None {
                lemma_place_first_stops(start, cells@, i + 1, cells@.len() as int);
            }
        }
        let ghost before = Placement {
            grid: grid(group@),
            nets: driven@,
            not_full: not_full as int,
        };
        match cells[i] {
            Cell::DffePp { .. } => {
                return None;
            },
            Cell::Lut2 { a, b, y, lut } => {
                let output = match place_lut(&mut group, not_full, lut) {
                    Some(output) => output,
                    None => {
                        return None;
                    },
                };
                proof {
                    lemma_first_with_room(before.grid, before.not_full);
                }
                not_full = output.tensix_id;
                if driven.insert(y, output).is_none() {
                    return None;
                }
                let first = match driven.get(&a) {
                    Some(location) => TensixLocation {
                        tensix_id: location.tensix_id,
                        lut_id: location.lut_id,
                        offset: true,
                    },
                    None => {
                        return None;
                    },
                };
                let second = match driven.get(&b) {
                    Some(location) => *location,
                    None => {
                        return None;
                    },
                };
                connect(group.as_mut_slice(), output, first);
                connect(group.as_mut_slice(), output, second);
            },
        }
    }
    Some((group, driven))
}

/// A Tensix with room is one of the grid.
proof fn lemma_first_with_room(grid: Seq<TensixView>, first: int)
    requires
        0 <= first,
    ensures
        match first_with_room(grid, first) {
            Some(id) => {
                &&& first <= id < grid.len()
                &&& grid[id].memory > LUT_MEMORY
                &&& forall|j: int| first <= j < id ==> (#[trigger] grid[j]).memory <= LUT_MEMORY
            },
            None => forall|j: int|
                first <= j < grid.len() ==> (#[trigger] grid[j]).memory <= LUT_MEMORY,
        },
    decreases grid.len() - first,
{
    if first < grid.len() && grid[first].memory <= LUT_MEMORY {
        lemma_first_with_room(grid, first + 1);
    }
}

/// Whether a grid is one that a machine can hold.
pub open spec fn holdable(grid: Seq<TensixView>) -> bool {
    &&& grid.len() <= usize::MAX
    &&& forall|id: int|
        0 <= id < grid.len() ==> {
            &&& (#[trigger] grid[id]).memory >= 0
            &&& grid[id].memory + LUT_MEMORY * grid[id].luts.len() <= usize::MAX
        }
}

/// Whether two grids have the same Tensixes, and each has as much memory, taken by cells or left.
pub open spec fn same_memory(before: Seq<TensixView>, after: Seq<TensixView>) -> bool {
    &&& after.len() == before.len()
    &&& forall|id: int|
        0 <= id < before.len() ==> {
            &&& (#[trigger] after[id]).id == before[id].id
            &&& after[id].memory + LUT_MEMORY * after[id].luts.len() == before[id].memory
                + LUT_MEMORY * before[id].luts.len()
        }
}

/// Placing a circuit takes the memory of its cells from the Tensixes that they are on, and no more
/// than there is. Every net that was driven still is.
pub proof fn cells_take_their_memory(start: Placement, cells: Seq<Cell>, count: int)
    requires
        0 <= count <= cells.len(),
        start.not_full >= 0,
        place_first(start, cells, count) is Some,
        holdable(start.grid),
    ensures
        ({
            let end = place_first(start, cells, count)->0;
            &&& same_memory(start.grid, end.grid)
            &&& holdable(end.grid)
            &&& end.nets.dom() == start.nets.dom()
            &&& end.not_full >= start.not_full
        }),
    decreases count,
{
    if count > 0 {
        cells_take_their_memory(start, cells, count - 1);
        let before = place_first(start, cells, count - 1)->0;
        let end = place_first(start, cells, count)->0;
        lemma_cell_takes_memory(before, cells[count - 1]);
        assert(end.nets.dom() =~= start.nets.dom());
    }
}

/// Where nothing drives a net, no cell can be placed.
pub proof fn nothing_is_placed_without_nets(start: Placement, cells: Seq<Cell>, count: int)
    requires
        0 < count <= cells.len(),
        start.nets == Map::<i64, TensixLocation>::empty(),
    ensures
        place_first(start, cells, count) is None,
{
    assert(place_first(start, cells, 0) == Some(start));
    assert(place_first(start, cells, 1) == place_cell(start, cells[0]));
    lemma_place_first_stops(start, cells, 1, count);
}

proof fn lemma_cell_takes_memory(before: Placement, cell: Cell)
    requires
        before.not_full >= 0,
        place_cell(before, cell) is Some,
        holdable(before.grid),
    ensures
        ({
            let after = place_cell(before, cell)->0;
            &&& same_memory(before.grid, after.grid)
            &&& holdable(after.grid)
            &&& after.nets.dom() == before.nets.dom()
            &&& after.not_full >= before.not_full
        }),
{
    lemma_first_with_room(before.grid, before.not_full);
    let after = place_cell(before, cell)->0;
    let id = after.not_full;
    assert(after.nets.dom() =~= before.nets.dom());
    assert(after.grid[id].luts.len() == before.grid[id].luts.len() + 1);
    assert(after.grid[id].memory == before.grid[id].memory - LUT_MEMORY);
    assert forall|other: int| 0 <= other < before.grid.len() implies {
        &&& (#[trigger] after.grid[other]).id == before.grid[other].id
        &&& after.grid[other].memory + LUT_MEMORY * after.grid[other].luts.len()
            == before.grid[other].memory + LUT_MEMORY * before.grid[other].luts.len()
    } by {
        if other != id {
            assert(after.grid[other] == before.grid[other]);
        }
    }
}

/// The line that declares what a cell gave last.
pub open spec fn result_line(id: int) -> Seq<char> {
    "let mut old_result_"@ + text::decimal(id) + " = false;\n"@
}

/// The line that sends a changed result to a cell on another Tensix.
pub open spec fn remote_line(id: int, tile: Tile, to: TensixLocation) -> Seq<char> {
    "noc_write("@ + text::decimal(tile.addr.n0.0 as int) + ", "@ + text::decimal(
        tile.addr.n0.1 as int,
    ) + ", "@ + text::decimal(
        to.lut_id + if to.offset {
            1int
        } else {
            0
        },
    ) + ", !old_result_"@ + text::decimal(id) + ")\n"@
}

/// The line that sends a changed result to a cell on the same Tensix.
pub open spec fn local_line(id: int, to: TensixLocation) -> Seq<char> {
    text::decimal(to.lut_id as int) + " = !old_result_"@ + text::decimal(id) + "\n"@
}

/// The lines that send a changed result to the first `count` cells on other Tensixes.
pub open spec fn remote_lines(
    id: int,
    tiles: Seq<Tile>,
    remote: Seq<TensixLocation>,
    count: int,
) -> Seq<char>
    decreases count,
{
    if count <= 0 {
        ""@
    } else {
        remote_lines(id, tiles, remote, count - 1) + remote_line(
            id,
            tiles[remote[count - 1].tensix_id as int],
            remote[count - 1],
        )
    }
}

/// The lines that send a changed result to the first `count` cells on the same Tensix.
pub open spec fn local_lines(id: int, local: Seq<TensixLocation>, count: int) -> Seq<char>
    decreases count,
{
    if count <= 0 {
        ""@
    } else {
        local_lines(id, local, count - 1) + local_line(id, local[count - 1])
    }
}

fn push_remote_line(out: &mut String, id: usize, tile: Tile, to: TensixLocation)
    requires
        to.lut_id < usize::MAX,
    ensures
        final(out)@ == old(out)@ + remote_line(id as int, tile, to),
{
    let (x, y) = tile.addr.get(NocId::Noc0);
    out.append("noc_write(");
    text::push_decimal(out, x as u64);
    out.append(", ");
    text::push_decimal(out, y as u64);
    out.append(", ");
    let input: usize = if to.offset {
        to.lut_id + 1
    } else {
        to.lut_id
    };
    text::push_decimal(out, input as u64);
    out.append(", !old_result_");
    text::push_decimal(out, id as u64);
    out.append(")\n");
    assert(out@ =~= old(out)@ + remote_line(id as int, tile, to));
}

/// The source that declares what the cell `id` of a Tensix gave last.
pub fn write_preamble(id: usize) -> (source: String)
    ensures
        source@ == result_line(id as int),
{
    let mut source = "let mut old_result_".to_string();
    text::push_decimal(&mut source, id as u64);
    source.append(" = false;\n");
    source
}

/// The source that sends a changed result of the cell `id` to where it goes. `tiles` are the chip's
/// Tensixes.
pub fn write_push_result(id: usize, lut: &Lut2Builder, tiles: &[Tile]) -> (source: String)
    requires
        forall|i: int|
            0 <= i < lut.remote@.len() ==> (#[trigger] lut.remote@[i]).tensix_id < tiles@.len()
                && lut.remote@[i].lut_id < usize::MAX,
    ensures
        source@ == remote_lines(id as int, tiles@, lut.remote@, lut.remote@.len() as int)
            + local_lines(id as int, lut.local@, lut.local@.len() as int),
{
    let mut source = "".to_string();
    for i in 0..lut.remote.len()
        invariant
            forall|j: int|
                0 <= j < lut.remote@.len() ==> (#[trigger] lut.remote@[j]).tensix_id < tiles@.len()
                    && lut.remote@[j].lut_id < usize::MAX,
            source@ == remote_lines(id as int, tiles@, lut.remote@, i as int),
    {
        let to = lut.remote[i];
        assert(lut.remote@[i as int].tensix_id < tiles@.len());
        push_remote_line(&mut source, id, tiles[to.tensix_id], to);
    }
    let ghost remote = source@;
    proof {
        reveal_strlit("");
        assert(remote =~= remote + local_lines(id as int, lut.local@, 0));
    }
    for i in 0..lut.local.len()
        invariant
            source@ == remote + local_lines(id as int, lut.local@, i as int),
    {
        text::push_decimal(&mut source, lut.local[i].lut_id as u64);
        source.append(" = !old_result_");
        text::push_decimal(&mut source, id as u64);
        source.append("\n");
        assert(source@ =~= remote + local_lines(id as int, lut.local@, i + 1));
    }
    source
}

} // verus!
