//! Workloads: the source of a kernel, put together piece by piece, and the kernel built from it.

use vstd::prelude::*;

use crate::builder::Rewrite;
use crate::bytes;
use crate::chip::{Arch, Tile};
use crate::kernel;
use crate::kernel::KernelData;
use crate::loader;
use crate::text;

verus! {

/// A buffer that a kernel writes and the host reads.
#[derive(Clone, Debug, PartialEq, Eq, Hash)]
pub struct OutputBuffer {
    pub name: String,
    pub size: usize,
    /// The number of readers that the buffer waits for.
    pub count: usize,
}

/// The place of one reader of a buffer.
#[derive(Debug, PartialEq, Eq)]
pub struct OutputSlot {
    pub name: String,
    pub size: usize,
    pub index: usize,
}

/// The symbol of the buffer `name`, which the symbols of its parts start with.
pub open spec fn buffer_symbol(name: Seq<char>) -> Seq<char> {
    "_BUFFER_"@ + name
}

/// The symbol of what one reader has read of a buffer.
pub open spec fn read_symbol(name: Seq<char>, slot: int) -> Seq<char> {
    buffer_symbol(name) + "_SLOT_"@ + text::decimal(slot) + "_READ_INDEX"@
}

impl OutputSlot {
    pub fn symbol_base(&self) -> (symbol: String)
        ensures
            symbol@ == buffer_symbol(self.name@),
    {
        let mut symbol = "_BUFFER_".to_string();
        symbol.append(self.name.as_str());
        symbol
    }

    fn slot_symbol_base(&self) -> (symbol: String)
        ensures
            symbol@ == buffer_symbol(self.name@) + "_SLOT_"@ + text::decimal(self.index as int),
    {
        let mut symbol = self.symbol_base();
        symbol.append("_SLOT_");
        text::push_decimal(&mut symbol, self.index as u64);
        symbol
    }

    pub fn symbol_read(&self) -> (symbol: String)
        ensures
            symbol@ == read_symbol(self.name@, self.index as int),
    {
        let mut symbol = self.slot_symbol_base();
        symbol.append("_READ_INDEX");
        symbol
    }

    pub fn symbol_write(&self) -> (symbol: String)
        ensures
            symbol@ == buffer_symbol(self.name@) + "_WRITE_INDEX"@,
    {
        let mut symbol = self.symbol_base();
        symbol.append("_WRITE_INDEX");
        symbol
    }

    pub fn symbol_flushed(&self) -> (symbol: String)
        ensures
            symbol@ == buffer_symbol(self.name@) + "_FLUSHED"@,
    {
        let mut symbol = self.symbol_base();
        symbol.append("_FLUSHED");
        symbol
    }

    pub fn symbol_data(&self) -> (symbol: String)
        ensures
            symbol@ == buffer_symbol(self.name@) + "_DATA"@,
    {
        let mut symbol = self.symbol_base();
        symbol.append("_DATA");
        symbol
    }
}

impl OutputBuffer {
    pub fn output_count(&self) -> (symbol: String)
        ensures
            symbol@ == "_COMPLETION_COUNT_"@ + self.name@,
    {
        let mut symbol = "_COMPLETION_COUNT_".to_string();
        symbol.append(self.name.as_str());
        symbol
    }

    pub fn output_buffer(&self) -> (symbol: String)
        ensures
            symbol@ == self.name@,
    {
        self.name.clone()
    }

    /// The place of the reader `index`, where there is one.
    pub fn get_slot(&self, index: usize) -> (slot: Option<OutputSlot>)
        ensures
            match slot {
                Some(slot) => {
                    &&& index < self.count
                    &&& slot.name@ == self.name@
                    &&& slot.size == self.size
                    &&& slot.index == index
                },
                None => index >= self.count,
            },
    {
        if index >= self.count {
            None
        } else {
            Some(OutputSlot { name: self.name.clone(), size: self.size, index })
        }
    }
}

/// Lines of text, joined.
pub open spec fn join_lines(lines: Seq<Seq<char>>) -> Seq<char>
    decreases lines.len(),
{
    if lines.len() == 0 {
        ""@
    } else if lines.len() == 1 {
        lines[0]
    } else {
        join_lines(lines.drop_last()) + "\n"@ + lines.last()
    }
}

/// A list of strings as values.
pub open spec fn strings(list: Seq<String>) -> Seq<Seq<char>> {
    Seq::new(list.len(), |i: int| list[i]@)
}

fn join(lines: &Vec<String>) -> (joined: String)
    ensures
        joined@ == join_lines(strings(lines@)),
{
    let mut joined = "".to_string();
    let ghost all = strings(lines@);
    assert(all.take(0).len() == 0);
    for i in 0..lines.len()
        invariant
            all == strings(lines@),
            joined@ == join_lines(all.take(i as int)),
    {
        assert(all.take(i + 1).drop_last() =~= all.take(i as int));
        if i > 0 {
            joined.append("\n");
            joined.append(lines[i].as_str());
        } else {
            proof {
                reveal_strlit("");
            }
            joined.append(lines[i].as_str());
            assert(joined@ =~= lines@[0]@);
        }
    }
    assert(all.take(all.len() as int) =~= all);
    joined
}

/// The source of a kernel, in pieces.
#[derive(Clone, Debug, PartialEq, Eq, Hash)]
pub struct WorkloadBuilder {
    pub use_local_cache: bool,
    /// How many bytes the kernel may take on the core.
    pub available_space: u64,
    pub inputs: Vec<String>,
    pub outputs: Vec<OutputBuffer>,
    pub global: String,
    pub brisc: String,
    pub ncrisc: String,
    pub trisc0: String,
    pub trisc1: String,
    pub trisc2: String,
}

impl Default for WorkloadBuilder {
    fn default() -> (builder: Self)
        ensures
            !builder.use_local_cache,
            builder.available_space == 0,
            builder.inputs@ == Seq::<String>::empty(),
            builder.outputs@ == Seq::<OutputBuffer>::empty(),
            builder.global@ == ""@,
            builder.brisc@ == ""@,
            builder.ncrisc@ == ""@,
            builder.trisc0@ == ""@,
            builder.trisc1@ == ""@,
            builder.trisc2@ == ""@,
    {
        WorkloadBuilder {
            use_local_cache: false,
            available_space: 0,
            inputs: Vec::new(),
            outputs: Vec::new(),
            global: "".to_string(),
            brisc: "".to_string(),
            ncrisc: "".to_string(),
            trisc0: "".to_string(),
            trisc1: "".to_string(),
            trisc2: "".to_string(),
        }
    }
}

/// The declaration of an input buffer.
pub open spec fn input_declaration(name: Seq<char>, size: int) -> Seq<char> {
    INPUT_HEAD@ + name + INPUT_TYPE@ + text::decimal(size) + INPUT_TAIL@
}

pub const INPUT_HEAD: &'static str = r#"
            #[unsafe(no_mangle)]
            static "#;

pub const INPUT_TYPE: &'static str = r#": NocAlignment<u8, "#;

pub const INPUT_TAIL: &'static str = r#"> = NocAlignment::new(0);
          "#;

pub const SLOT_HEAD: &'static str = r#"
                #[unsafe(no_mangle)]
                static "#;

pub const SLOT_TAIL: &'static str = r#": SYNC<u32> = SYNC::new(0);
            "#;

pub const INDEX_HEAD: &'static str = r#"
            #[unsafe(no_mangle)]
            static "#;

pub const INDEX_TAIL: &'static str = r#": SYNC<u32> = SYNC::new(0);
          "#;

pub const DATA_TYPE: &'static str = r#": SYNC<[u8; "#;

pub const DATA_VALUE: &'static str = r#"]> = SYNC::new([0; "#;

pub const DATA_TAIL: &'static str = r#"]);
          "#;

pub const FIRST_READ: &'static str = r#"
                    let mut max_read = "#;

pub const FIRST_COUNT: &'static str = r#".read();
                    let mut max_count = buffer_count(write, max_read, "#;

pub const FIRST_TAIL: &'static str = r#");
                    "#;

pub const NEXT_READ: &'static str = r#"
                let new_max_read = "#;

pub const NEXT_COUNT: &'static str = r#".read();
                let new_max_count = buffer_count(write, new_max_read, "#;

pub const NEXT_TAIL: &'static str = r#");
                if new_max_count > max_count {
                    max_read = new_max_read;
                    max_count = new_max_count;
                }
                "#;

/// The declaration of what one reader has read.
pub open spec fn slot_declaration(name: Seq<char>, slot: int) -> Seq<char> {
    SLOT_HEAD@ + read_symbol(name, slot) + SLOT_TAIL@
}

/// The declarations of what the first `count` readers have read.
pub open spec fn slot_declarations(name: Seq<char>, count: int) -> Seq<char>
    decreases count,
{
    if count <= 0 {
        ""@
    } else {
        slot_declarations(name, count - 1) + slot_declaration(name, count - 1)
    }
}

/// The lines that take one reader into account when looking for the one furthest behind.
pub open spec fn slot_search(name: Seq<char>, size: int, slot: int) -> Seq<char> {
    if slot == 0 {
        FIRST_READ@ + read_symbol(name, slot) + FIRST_COUNT@ + text::decimal(size) + FIRST_TAIL@
    } else {
        NEXT_READ@ + read_symbol(name, slot) + NEXT_COUNT@ + text::decimal(size) + NEXT_TAIL@
    }
}

/// The lines that take the first `count` readers into account.
pub open spec fn slot_searches(name: Seq<char>, size: int, count: int) -> Seq<char>
    decreases count,
{
    if count <= 0 {
        ""@
    } else {
        slot_searches(name, size, count - 1) + slot_search(name, size, count - 1)
    }
}

/// The function that finds the reader furthest behind.
pub open spec fn smallest_read(name: Seq<char>, size: int, count: int) -> Seq<char> {
    "fn smallest_read_for_"@ + buffer_symbol(name) + "(write: u32) -> u32 {"@ + (if count == 0 {
        "let max_read = 0;\n"@
    } else {
        ""@
    }) + slot_searches(name, size, count) + "max_read\n}"@
}

/// The declaration of a word that is shared with the host.
pub open spec fn index_declaration(symbol: Seq<char>) -> Seq<char> {
    INDEX_HEAD@ + symbol + INDEX_TAIL@
}

/// The declaration of a buffer's cells.
pub open spec fn data_declaration(symbol: Seq<char>, cells: int) -> Seq<char> {
    INDEX_HEAD@ + symbol + DATA_TYPE@ + text::decimal(cells) + DATA_VALUE@ + text::decimal(cells)
        + DATA_TAIL@
}

/// The declarations of an output buffer that holds `size` bytes. A cell more is declared, to tell a
/// full buffer from an empty one.
pub open spec fn output_declarations(name: Seq<char>, size: int, count: int) -> Seq<char> {
    slot_declarations(name, count) + smallest_read(name, size + 1, count) + index_declaration(
        buffer_symbol(name) + "_FLUSHED"@,
    ) + index_declaration(buffer_symbol(name) + "_WRITE_INDEX"@) + data_declaration(
        buffer_symbol(name) + "_DATA"@,
        size + 1,
    )
}

/// The line that begins the loop over a dimension.
pub open spec fn loop_line(index: int, dim: int) -> Seq<char> {
    "for _"@ + text::decimal(index) + "_it in 0.."@ + text::signed(dim) + "u32 {"@
}

/// The name of a tensor's offset in the loops up to a dimension.
pub open spec fn dim_index(tensor: int, index: int) -> Seq<char> {
    "_"@ + text::decimal(tensor) + "_tensor_"@ + text::decimal(index) + "_dim_index"@
}

/// The line that moves a tensor's offset along a dimension.
pub open spec fn stride_line(tensor: int, index: int, stride: int) -> Seq<char> {
    let step = "_"@ + text::decimal(index) + "_it * "@ + text::decimal(stride) + ";"@;
    "let "@ + dim_index(tensor, index) + " = "@ + (if index == 0 {
        step
    } else {
        dim_index(tensor, index - 1) + " + "@ + step
    })
}

/// The lines that move the offsets of the first `count` tensors along a dimension.
pub open spec fn stride_lines(strides: Seq<Seq<usize>>, index: int, count: int) -> Seq<Seq<char>> {
    Seq::new(count as nat, |t: int| stride_line(t, index, strides[t][index] as int))
}

/// The lines that begin the loops over the first `count` dimensions.
pub open spec fn dim_lines(shape: Seq<i64>, strides: Seq<Seq<usize>>, count: int) -> Seq<Seq<char>>
    decreases count,
{
    if count <= 0 {
        seq![]
    } else {
        dim_lines(shape, strides, count - 1).push(
            loop_line(count - 1, shape[count - 1] as int),
        ) + stride_lines(strides, count - 1, strides.len() as int)
    }
}

/// The name of a tensor's offset in the innermost loop.
pub open spec fn tensor_index(tensor: int) -> Seq<char> {
    "_"@ + text::decimal(tensor) + "_tensor_index"@
}

pub open spec fn tensor_indexes(count: int) -> Seq<Seq<char>> {
    Seq::new(count as nat, |t: int| tensor_index(t))
}

/// The line that names a tensor's offset in the innermost loop.
pub open spec fn index_line(tensor: int, dims: int) -> Seq<char> {
    "let "@ + tensor_index(tensor) + " = "@ + dim_index(tensor, dims - 1) + ";"@
}

pub open spec fn index_lines(dims: int, count: int) -> Seq<Seq<char>> {
    Seq::new(count as nat, |t: int| index_line(t, dims))
}

/// The lines of the loops over `shape`, with `body` in the innermost.
pub open spec fn zip_lines(shape: Seq<i64>, strides: Seq<Seq<usize>>, body: Seq<char>) -> Seq<
    Seq<char>,
> {
    dim_lines(shape, strides, shape.len() as int) + index_lines(
        shape.len() as int,
        strides.len() as int,
    ) + seq![body] + Seq::new(shape.len(), |i: int| "}"@)
}

/// A list of slices as values.
pub open spec fn stride_views(strides: Seq<&[usize]>) -> Seq<Seq<usize>> {
    Seq::new(strides.len(), |t: int| strides[t]@)
}

impl WorkloadBuilder {
    /// Declares an input buffer.
    pub fn input_buffer(&mut self, name: &str, size: usize)
        ensures
            final(self).global@ == old(self).global@ + input_declaration(name@, size as int),
            strings(final(self).inputs@) == strings(old(self).inputs@).push(name@),
            *final(self) == (WorkloadBuilder {
                global: final(self).global,
                inputs: final(self).inputs,
                ..*old(self)
            }),
    {
        self.global.append(INPUT_HEAD);
        self.global.append(name);
        self.global.append(INPUT_TYPE);
        text::push_decimal(&mut self.global, size as u64);
        self.global.append(INPUT_TAIL);
        self.inputs.push(name.to_string());
        assert(self.global@ =~= old(self).global@ + input_declaration(name@, size as int));
        assert(strings(self.inputs@) =~= strings(old(self).inputs@).push(name@));
    }

    /// Declares an output buffer that holds `size` bytes and waits for `completion_slots` readers.
    pub fn output_buffer(&mut self, name: &str, size: usize, completion_slots: usize) -> (buffer:
        OutputBuffer)
        requires
            size < usize::MAX,
        ensures
            buffer.name@ == name@,
            buffer.size == size,
            buffer.count == completion_slots,
            final(self).global@ == old(self).global@ + output_declarations(
                name@,
                size as int,
                completion_slots as int,
            ),
            *final(self) == (WorkloadBuilder { global: final(self).global, ..*old(self) }),
    {
        // To add empty full detection we need to burn a slot
        let cells: usize = size + 1;
        let mut slot = OutputSlot { name: name.to_string(), size, index: 0 };
        let smallest = write_smallest_read(name, cells, completion_slots);

        let ghost before = self.global@;
        proof {
            reveal_strlit("");
            assert(before =~= before + slot_declarations(name@, 0));
        }
        for i in 0..completion_slots
            invariant
                slot.name@ == name@,
                self.global@ == before + slot_declarations(name@, i as int),
                *self == (WorkloadBuilder { global: self.global, ..*old(self) }),
        {
            slot.index = i;
            self.global.append(SLOT_HEAD);
            self.global.append(slot.symbol_read().as_str());
            self.global.append(SLOT_TAIL);
            assert(self.global@ =~= before + slot_declarations(name@, i + 1));
        }
        self.global.append(smallest.as_str());
        push_index_declaration(&mut self.global, &slot.symbol_flushed());
        push_index_declaration(&mut self.global, &slot.symbol_write());
        push_data_declaration(&mut self.global, &slot.symbol_data(), cells);
        assert(self.global@ =~= before + output_declarations(
            name@,
            size as int,
            completion_slots as int,
        ));

        OutputBuffer { name: name.to_string(), size, count: completion_slots }
    }

    /// Loops over all elements of tensors of one shape, each with its strides. `func` writes the
    /// innermost body, from the names of the tensors' offsets in it; without a dimension there is
    /// no loop and no body.
    pub fn iterate_zip(
        &mut self,
        shape: &[i64],
        strides: &[&[usize]],
        func: impl FnOnce(&[String]) -> String,
    ) -> (source: String)
        requires
            forall|t: int|
                0 <= t < strides@.len() ==> shape@.len() <= (#[trigger] strides@[t])@.len(),
            forall|names: &[String]|
                strings(names@) == tensor_indexes(strides@.len() as int)
                    ==> #[trigger] call_requires(func, (names,)),
        ensures
            *final(self) == *old(self),
            shape@.len() == 0 ==> source@ == ""@,
            shape@.len() > 0 ==> exists|names: &[String], body: String| {
                &&& strings(names@) == tensor_indexes(strides@.len() as int)
                &&& #[trigger] call_ensures(func, (names,), body)
                &&& source@ == join_lines(zip_lines(shape@, stride_views(strides@), body@))
            },
    {
        let ghost views = stride_views(strides@);
        let mut loops: Vec<String> = Vec::new();
        let mut index: usize = 0;
        while index < shape.len()
            invariant
                index <= shape@.len(),
                views == stride_views(strides@),
                forall|t: int|
                    0 <= t < strides@.len() ==> shape@.len() <= (#[trigger] strides@[t])@.len(),
                strings(loops@) == dim_lines(shape@, views, index as int),
            decreases shape@.len() - index,
        {
            let line = write_loop_line(index, shape[index]);
            let ghost lines = strings(loops@);
            loops.push(line);
            let mut tensor: usize = 0;
            assert(strings(loops@) =~= lines.push(line@) + stride_lines(views, index as int, 0));
            while tensor < strides.len()
                invariant
                    index < shape@.len(),
                    tensor <= strides@.len(),
                    views == stride_views(strides@),
                    forall|t: int|
                        0 <= t < strides@.len() ==> shape@.len() <= (#[trigger] strides@[t])@.len(),
                    strings(loops@) == lines.push(line@) + stride_lines(
                        views,
                        index as int,
                        tensor as int,
                    ),
                decreases strides@.len() - tensor,
            {
                let stride: &[usize] = strides[tensor];
                assert(stride@ == strides@[tensor as int]@);
                let next = write_stride_line(tensor, index, stride[index]);
                let ghost shorter = loops@;
                loops.push(next);
                assert(strings(loops@) =~= strings(shorter).push(next@));
                assert(strings(loops@) =~= lines.push(line@) + stride_lines(
                    views,
                    index as int,
                    tensor + 1,
                ));
                tensor = tensor + 1;
            }
            index = index + 1;
        }
        if shape.len() == 0 {
            let nothing = "".to_string();
            return nothing;
        }
        let ghost begun = strings(loops@);
        let mut final_indexes: Vec<String> = Vec::new();
        let mut tensor: usize = 0;
        assert(strings(loops@) =~= begun + index_lines(shape@.len() as int, 0));
        while tensor < strides.len()
            invariant
                tensor <= strides@.len(),
                shape@.len() > 0,
                strings(loops@) == begun + index_lines(shape@.len() as int, tensor as int),
                strings(final_indexes@) == tensor_indexes(tensor as int),
            decreases strides@.len() - tensor,
        {
            let line = write_index_line(tensor, shape.len());
            let ghost shorter = loops@;
            loops.push(line);
            assert(strings(loops@) =~= strings(shorter).push(line@));
            assert(strings(loops@) =~= begun + index_lines(shape@.len() as int, tensor + 1));
            let name = write_tensor_index(tensor);
            let ghost fewer = final_indexes@;
            final_indexes.push(name);
            assert(strings(final_indexes@) =~= strings(fewer).push(name@));
            assert(strings(final_indexes@) =~= tensor_indexes(tensor + 1));
            tensor = tensor + 1;
        }
        let names: &[String] = final_indexes.as_slice();
        let body = func(names);
        let ghost inner = body;
        let ghost shorter = loops@;
        loops.push(body);
        assert(strings(loops@) =~= strings(shorter).push(inner@));
        let ghost open = strings(loops@);
        let mut closed: usize = 0;
        assert(strings(loops@) =~= open + Seq::new(0, |i: int| "}"@));
        while closed < shape.len()
            invariant
                closed <= shape@.len(),
                strings(loops@) == open + Seq::new(closed as nat, |i: int| "}"@),
            decreases shape@.len() - closed,
        {
            let ghost shorter = loops@;
            loops.push("}".to_string());
            assert(strings(loops@) =~= strings(shorter).push("}"@));
            assert(strings(loops@) =~= open + Seq::new((closed + 1) as nat, |i: int| "}"@));
            closed = closed + 1;
        }
        assert(strings(loops@) =~= zip_lines(shape@, views, inner@));
        let source = join(&loops);
        assert(call_ensures(func, (names,), inner));
        source
    }
}

/// The function that finds the reader furthest behind.
fn write_smallest_read(name: &str, cells: usize, completion_slots: usize) -> (source: String)
    ensures
        source@ == smallest_read(name@, cells as int, completion_slots as int),
{
    let mut slot = OutputSlot { name: name.to_string(), size: cells, index: 0 };
    let mut source = "fn smallest_read_for_".to_string();
    source.append(slot.symbol_base().as_str());
    source.append("(write: u32) -> u32 {");
    source.append(
        if completion_slots == 0 {
            "let max_read = 0;\n"
        } else {
            ""
        },
    );
    let ghost head = source@;
    proof {
        reveal_strlit("");
        assert(head =~= head + slot_searches(name@, cells as int, 0));
    }
    for i in 0..completion_slots
        invariant
            slot.name@ == name@,
            source@ == head + slot_searches(name@, cells as int, i as int),
    {
        slot.index = i;
        push_slot_search(&mut source, &slot, cells);
        assert(source@ =~= head + slot_searches(name@, cells as int, i + 1));
    }
    source.append("max_read\n}");
    assert(source@ =~= smallest_read(name@, cells as int, completion_slots as int));
    source
}

fn push_slot_search(source: &mut String, slot: &OutputSlot, cells: usize)
    ensures
        final(source)@ == old(source)@ + slot_search(slot.name@, cells as int, slot.index as int),
{
    let symbol = slot.symbol_read();
    if slot.index == 0 {
        source.append(FIRST_READ);
        source.append(symbol.as_str());
        source.append(FIRST_COUNT);
        text::push_decimal(source, cells as u64);
        source.append(FIRST_TAIL);
    } else {
        source.append(NEXT_READ);
        source.append(symbol.as_str());
        source.append(NEXT_COUNT);
        text::push_decimal(source, cells as u64);
        source.append(NEXT_TAIL);
    }
    assert(source@ =~= old(source)@ + slot_search(slot.name@, cells as int, slot.index as int));
}

fn push_index_declaration(source: &mut String, symbol: &String)
    ensures
        final(source)@ == old(source)@ + index_declaration(symbol@),
{
    source.append(INDEX_HEAD);
    source.append(symbol.as_str());
    source.append(INDEX_TAIL);
    assert(source@ =~= old(source)@ + index_declaration(symbol@));
}

fn push_data_declaration(source: &mut String, symbol: &String, cells: usize)
    ensures
        final(source)@ == old(source)@ + data_declaration(symbol@, cells as int),
{
    source.append(INDEX_HEAD);
    source.append(symbol.as_str());
    source.append(DATA_TYPE);
    text::push_decimal(source, cells as u64);
    source.append(DATA_VALUE);
    text::push_decimal(source, cells as u64);
    source.append(DATA_TAIL);
    assert(source@ =~= old(source)@ + data_declaration(symbol@, cells as int));
}

fn write_loop_line(index: usize, dim: i64) -> (line: String)
    ensures
        line@ == loop_line(index as int, dim as int),
{
    let mut line = "for _".to_string();
    text::push_decimal(&mut line, index as u64);
    line.append("_it in 0..");
    text::push_signed(&mut line, dim);
    line.append("u32 {");
    line
}

fn push_dim_index(line: &mut String, tensor: usize, index: usize)
    ensures
        final(line)@ == old(line)@ + dim_index(tensor as int, index as int),
{
    line.append("_");
    text::push_decimal(line, tensor as u64);
    line.append("_tensor_");
    text::push_decimal(line, index as u64);
    line.append("_dim_index");
    assert(line@ =~= old(line)@ + dim_index(tensor as int, index as int));
}

fn write_stride_line(tensor: usize, index: usize, stride: usize) -> (line: String)
    ensures
        line@ == stride_line(tensor as int, index as int, stride as int),
{
    let mut line = "let ".to_string();
    push_dim_index(&mut line, tensor, index);
    line.append(" = ");
    if index > 0 {
        push_dim_index(&mut line, tensor, index - 1);
        line.append(" + ");
    }
    line.append("_");
    text::push_decimal(&mut line, index as u64);
    line.append("_it * ");
    text::push_decimal(&mut line, stride as u64);
    line.append(";");
    assert(line@ =~= stride_line(tensor as int, index as int, stride as int));
    line
}

fn write_tensor_index(tensor: usize) -> (name: String)
    ensures
        name@ == tensor_index(tensor as int),
{
    let mut name = "_".to_string();
    text::push_decimal(&mut name, tensor as u64);
    name.append("_tensor_index");
    name
}

fn write_index_line(tensor: usize, dims: usize) -> (line: String)
    requires
        dims > 0,
    ensures
        line@ == index_line(tensor as int, dims as int),
{
    let mut line = "let ".to_string();
    line.append(write_tensor_index(tensor).as_str());
    line.append(" = ");
    push_dim_index(&mut line, tensor, dims - 1);
    line.append(";");
    line
}

/// A file of a crate that is to be built.
#[derive(Debug, PartialEq, Eq)]
pub struct SourceFile {
    pub path: String,
    pub text: String,
}

impl View for SourceFile {
    type V = (Seq<char>, Seq<char>);

    open spec fn view(&self) -> (Seq<char>, Seq<char>) {
        (self.path@, self.text@)
    }
}

pub open spec fn files_view(files: Seq<SourceFile>) -> Seq<(Seq<char>, Seq<char>)> {
    Seq::new(files.len(), |i: int| files[i]@)
}

/// Files with one more, which takes the place of the one at its path.
pub open spec fn with_file(
    files: Seq<(Seq<char>, Seq<char>)>,
    path: Seq<char>,
    text: Seq<char>,
) -> Seq<(Seq<char>, Seq<char>)>
    decreases files.len(),
{
    if files.len() == 0 {
        seq![(path, text)]
    } else if files[0].0 == path {
        seq![(path, text)] + files.skip(1)
    } else {
        seq![files[0]] + with_file(files.skip(1), path, text)
    }
}

/// The place of a file is that of the first at its path, or the end.
proof fn lemma_with_file(
    files: Seq<(Seq<char>, Seq<char>)>,
    path: Seq<char>,
    text: Seq<char>,
    place: int,
)
    requires
        0 <= place <= files.len(),
        forall|i: int| 0 <= i < place ==> (#[trigger] files[i]).0 != path,
        place < files.len() ==> files[place].0 == path,
    ensures
        with_file(files, path, text) == if place < files.len() {
            files.update(place, (path, text))
        } else {
            files.push((path, text))
        },
    decreases files.len(),
{
    if place > 0 {
        let rest = files.skip(1);
        assert(files[0].0 != path);
        assert forall|i: int| 0 <= i < place - 1 implies (#[trigger] rest[i]).0 != path by {
            assert(files[i + 1].0 != path);
        }
        lemma_with_file(rest, path, text, place - 1);
    }
    assert(with_file(files, path, text) =~= if place < files.len() {
        files.update(place, (path, text))
    } else {
        files.push((path, text))
    });
}

/// Two files at different paths, one behind the other.
pub proof fn lemma_two_files(
    first: Seq<char>,
    first_text: Seq<char>,
    second: Seq<char>,
    second_text: Seq<char>,
)
    requires
        first != second,
    ensures
        with_file(with_file(seq![], first, first_text), second, second_text) == seq![
            (first, first_text),
            (second, second_text),
        ],
{
    let one = with_file(seq![], first, first_text);
    assert(one =~= seq![(first, first_text)]);
    lemma_with_file(one, second, second_text, 1);
    assert(one.push((second, second_text)) =~= seq![(first, first_text), (second, second_text)]);
}

/// Adds a file, in the place of the one at its path.
pub fn put_file(files: &mut Vec<SourceFile>, path: &str, text: String)
    ensures
        files_view(final(files)@) == with_file(files_view(old(files)@), path@, text@),
{
    let ghost before = files_view(files@);
    let file = SourceFile { path: path.to_string(), text };
    let total: usize = files.len();
    let mut place: usize = 0;
    while place < total && files[place].path != file.path
        invariant
            place <= total,
            total == files@.len(),
            before == files_view(files@),
            forall|i: int| 0 <= i < place ==> (#[trigger] before[i]).0 != file.path@,
        decreases total - place,
    {
        place = place + 1;
    }
    proof {
        lemma_with_file(before, path@, text@, place as int);
    }
    if place < total {
        files.set(place, file);
        assert(files_view(files@) =~= before.update(place as int, file@));
    } else {
        files.push(file);
        assert(files_view(files@) =~= before.push(file@));
    }
}

/// A kernel that was built from a workload.
pub struct Workload {
    pub data: KernelData,
}

/// A workload that was loaded into a Tensix.
pub struct LoadedWorkload {
    pub workload: Workload,
    pub tile: Tile,
    pub base_addr: u64,
}

impl LoadedWorkload {
    /// Where a symbol of the workload was loaded to.
    pub fn data(&self, index: &str) -> (addr: u64)
        requires
            self.workload.data.sym_table@.contains_key(index@),
            self.base_addr + self.workload.data.sym_table@[index@] <= u64::MAX,
        ensures
            addr == self.base_addr + self.workload.data.sym_table@[index@],
    {
        self.base_addr + self.workload.data.sym_table.symbol(index)
    }
}

/// What a build of a workload takes.
pub struct WorkloadBuild {
    pub arch: Arch,
    pub files: Vec<SourceFile>,
    pub link_script: String,
    pub rewrites: Vec<Rewrite>,
}

pub const CARGO_HEAD: &'static str = r#"
        [package]
        name = "kernel"
        version = "0.1.0"
        edition = "2024"

        # HACK(drosen): This gets around errors due to this package being in a workspace
        [workspace]

        [lib]
        crate-type = ["cdylib"]

        [dependencies]
        tensix-std = {path = ""#;

pub const CARGO_TAIL: &'static str = r#"/../../../tensix-std"}
        "#;

pub const LIB_PRELUDE: &'static str = r#"
        #![no_std]
        #![no_main]

        #[repr(align(64))]
        struct NocAlignment<T, const N: usize>(pub [T; N]);

        impl<T, const N: usize> core::ops::Index<usize> for NocAlignment<T, N> {
            type Output = T;

            fn index(&self, index: usize) -> &Self::Output {
                &self.0[index]
            }
        }

        impl<T, const N: usize> core::ops::IndexMut<usize> for NocAlignment<T, N> {
            fn index_mut(&mut self, index: usize) -> &mut Self::Output {
                &mut self.0[index]
            }
        }

        impl<T, const N: usize> core::ops::Index<u32> for NocAlignment<T, N> {
            type Output = T;

            fn index(&self, index: u32) -> &Self::Output {
                &self.0[index as usize]
            }
        }

        impl<T, const N: usize> core::ops::IndexMut<u32> for NocAlignment<T, N> {
            fn index_mut(&mut self, index: u32) -> &mut Self::Output {
                &mut self.0[index as usize]
            }
        }

        impl<T: Copy, const N: usize> NocAlignment<T, N> {
            pub const fn new(value: T) -> Self {
                NocAlignment([value; N])
            }
        }

        impl<T, const N: usize> NocAlignment<T, N> {
            pub fn addr(&self) -> u32 {
                self.0.as_ptr() as u32
            }

            pub fn len(&self) -> u32 {
                N as u32
            }

            pub fn read(&self, index: usize) -> T
                where T: Sized
            {
                unsafe {
                    self.0.as_ptr().add(index).read_volatile()
                }
            }

            pub fn write(&mut self, index: usize, value: T) {
                unsafe {
                    self.0.as_mut_ptr().add(index).write_volatile(value);
                }
            }
        }

        #[repr(align(64))]
        pub struct NocAligned<T>(T);

        impl<T> core::ops::Deref for NocAligned<T> {
            type Target = T;

            fn deref(&self) -> &<Self as core::ops::Deref>::Target {
                &self.0
            }
        }

        impl<T> core::ops::DerefMut for NocAligned<T> {
            fn deref_mut(&mut self) -> &mut <Self as core::ops::Deref>::Target {
                &mut self.0
            }
        }

        #[repr(transparent)]
        pub struct SyncUnsafeCell<T>(core::cell::UnsafeCell<T>);
        unsafe impl<T: Sync> Sync for SyncUnsafeCell<T> {}

        impl<T> SyncUnsafeCell<T> {
            pub const fn new(value: T) -> Self {
                SyncUnsafeCell(core::cell::UnsafeCell::new(value))
            }

            pub fn get(&self) -> *mut T {
                self.0.get()
            }

            pub fn read(&self) -> T {
                unsafe {
                    self.get().read_volatile()
                }
            }

            pub fn write(&self, value: T) {
                unsafe {
                    self.get().write_volatile(value);
                }
            }
        }

        #[repr(transparent)]
        pub struct SyncUnsafeNocCell<T>(NocAligned<SyncUnsafeCell<T>>);

        impl<T> SyncUnsafeNocCell<T> {
            pub const fn new(value: T) -> Self {
                SyncUnsafeNocCell(NocAligned(SyncUnsafeCell(core::cell::UnsafeCell::new(value))))
            }

            pub fn get(&self) -> *mut T {
                ((self.0).0).0.get()
            }

            pub fn read(&self) -> T {
                unsafe {
                    self.get().read_volatile()
                }
            }

            pub fn write(&self, value: T) {
                unsafe {
                    self.get().write_volatile(value);
                }
            }
        }

        type SYNC<T> = SyncUnsafeNocCell<T>;

        struct Tile {
            n0: (u8, u8),
            n1: (u8, u8)
        }

        impl From<u32> for Tile {
            fn from(value: u32) -> Self {
                Tile {
                    n0: (value as u8, (value >> 8) as u8),
                    n1: ((value >> 16) as u8, (value >> 24) as u8)
                }
            }
        }

        fn buffer_count(write: u32, read: u32, size: u32) -> u32 {
            if write >= read {
                write - read
            } else {
                size - read + write
            }
        }

        fn buffer_pull(remote: Tile, data: u32, read: u32, write: u32, size: u32, value: &mut [u8]) {
        }

        fn buffer_push_dyn(smallest_read: fn(u32) -> u32, data: *mut u8, size: u32, write: &SYNC<u32>, value: &[u8]) {
            unsafe {
                for v in value {
                    let write_value = write.read();

                    // Wait while buffer is full
                    while smallest_read(write_value) == (write_value + 1) % size { }

                    data.add(write_value as usize).write_volatile(*v);

                    write.write((write_value + 1) % size);
                }
            }
        }

        fn buffer_push<const SIZE: usize>(smallest_read: fn(u32) -> u32, data: &SYNC<[u8; SIZE]>, write: &SYNC<u32>, value: &[u8]) {
            unsafe {
                buffer_push_dyn(smallest_read, &raw mut ((*data.get())[0]), SIZE as u32, write, value)
            }
        }

        fn buffer_complete(smallest_read: fn(u32) -> u32, write: &SYNC<u32>, flushed: &SYNC<u32>) {
            unsafe {
                flushed.write(true as u8 as u32);

                let write = write.read();

                // Wait for buffer to be empty
                while write != smallest_read(write) {}
            }
        }

        #[panic_handler]
        fn panic(_info: &core::panic::PanicInfo) -> ! {
            loop {}
        }

        "#;

pub const LIB_BRISC: &'static str = r#"

        #[unsafe(no_mangle)]
        pub unsafe extern "C" fn brisc_kmain() {
            unsafe {
                "#;

pub const LIB_NCRISC: &'static str = r#"
            }
        }

        #[unsafe(no_mangle)]
        pub unsafe extern "C" fn ncrisc_kmain() {
            unsafe {
                "#;

pub const LIB_TRISC0: &'static str = r#"
            }
        }

        #[unsafe(no_mangle)]
        pub unsafe extern "C" fn trisc0_kmain() {
            unsafe {
                "#;

pub const LIB_TRISC1: &'static str = r#"
            }
        }

        #[unsafe(no_mangle)]
        pub unsafe extern "C" fn trisc1_kmain() {
            unsafe {
                "#;

pub const LIB_TRISC2: &'static str = r#"
            }
        }

        #[unsafe(no_mangle)]
        pub unsafe extern "C" fn trisc2_kmain() {
            unsafe {
                "#;

pub const LIB_END: &'static str = r#"
            }
        }
        "#;

/// The manifest of a workload's crate. `manifest_dir` is the directory of this library's crate.
pub open spec fn cargo_toml(manifest_dir: Seq<char>) -> Seq<char> {
    CARGO_HEAD@ + manifest_dir + CARGO_TAIL@
}

/// The source of a workload's crate.
pub open spec fn lib_source(builder: WorkloadBuilder) -> Seq<char> {
    LIB_PRELUDE@ + builder.global@ + LIB_BRISC@ + builder.brisc@ + LIB_NCRISC@ + builder.ncrisc@
        + LIB_TRISC0@ + builder.trisc0@ + LIB_TRISC1@ + builder.trisc1@ + LIB_TRISC2@
        + builder.trisc2@ + LIB_END@
}

/// Whether these are the changes to a target that make it build position-independent code.
pub open spec fn position_independent(rewrites: Seq<Rewrite>) -> bool {
    &&& rewrites.len() == 2
    &&& rewrites[0] matches Rewrite::Replace { start, end, replace } && {
        &&& start@ == "\"relocation-model\""@
        &&& end@ == ","@
        &&& replace@ == "\"relocation-model\": \"pic\""@
    }
    &&& rewrites[1] matches Rewrite::Add { value } && value@
        == ",\n\"dynamic-linking\": true\n"@
}

/// The file of the linker script's template, for a known generation.
pub open spec fn link_template_name(arch: Arch) -> Seq<char> {
    match arch {
        Arch::Grayskull => "grayskull-kernel.x"@,
        Arch::Wormhole => "wormhole-kernel.x"@,
        _ => "blackhole-kernel.x"@,
    }
}

/// The file of the linker script's template, for a known generation.
pub fn link_template_file(arch: Arch) -> (name: String)
    requires
        !(arch is Unknown),
    ensures
        name@ == link_template_name(arch),
{
    let text = match arch {
        Arch::Grayskull => "grayskull-kernel.x",
        Arch::Wormhole => "wormhole-kernel.x",
        _ => "blackhole-kernel.x",
    };
    text.to_string()
}

impl WorkloadBuilder {
    /// What the build of the workload takes. See `Workload::compile`.
    pub fn compile(self, arch: Arch, link_template: &str, manifest_dir: &str) -> (build:
        WorkloadBuild)
        requires
            self.available_space > 0,
            !(arch is Unknown),
        ensures
            build.arch == arch,
            files_view(build.files@) == seq![
                ("Cargo.toml"@, cargo_toml(manifest_dir@)),
                ("src/lib.rs"@, lib_source(self)),
            ],
            build.link_script@ == text::replaced(
                link_template@,
                "{available_space}"@,
                text::decimal(self.available_space as int),
            ),
            position_independent(build.rewrites@),
    {
        Workload::compile(arch, &self, link_template, manifest_dir)
    }
}

impl Workload {
    pub fn dupe(&self) -> (copy: Self)
        ensures
            copy.data@ == self.data@,
    {
        Workload { data: self.data.clone() }
    }

    fn write_cargo_toml(manifest_dir: &str) -> (source: String)
        ensures
            source@ == cargo_toml(manifest_dir@),
    {
        let mut source = CARGO_HEAD.to_string();
        source.append(manifest_dir);
        source.append(CARGO_TAIL);
        source
    }

    fn write_lib(files: &mut Vec<SourceFile>, builder: &WorkloadBuilder)
        ensures
            files_view(final(files)@) == with_file(
                files_view(old(files)@),
                "src/lib.rs"@,
                lib_source(*builder),
            ),
    {
        let mut source = LIB_PRELUDE.to_string();
        source.append(builder.global.as_str());
        source.append(LIB_BRISC);
        source.append(builder.brisc.as_str());
        source.append(LIB_NCRISC);
        source.append(builder.ncrisc.as_str());
        source.append(LIB_TRISC0);
        source.append(builder.trisc0.as_str());
        source.append(LIB_TRISC1);
        source.append(builder.trisc1.as_str());
        source.append(LIB_TRISC2);
        source.append(builder.trisc2.as_str());
        source.append(LIB_END);
        put_file(files, "src/lib.rs", source);
    }

    /// What the build of a workload takes: its files, the linker script, which says how much space
    /// the workload may take, and the changes to the target.
    pub fn compile(
        arch: Arch,
        builder: &WorkloadBuilder,
        link_template: &str,
        manifest_dir: &str,
    ) -> (build: WorkloadBuild)
        requires
            !(arch is Unknown),
        ensures
            build.arch == arch,
            files_view(build.files@) == seq![
                ("Cargo.toml"@, cargo_toml(manifest_dir@)),
                ("src/lib.rs"@, lib_source(*builder)),
            ],
            build.link_script@ == text::replaced(
                link_template@,
                "{available_space}"@,
                text::decimal(builder.available_space as int),
            ),
            position_independent(build.rewrites@),
    {
        let mut files: Vec<SourceFile> = Vec::new();
        put_file(&mut files, "Cargo.toml", Self::write_cargo_toml(manifest_dir));
        Self::write_lib(&mut files, builder);
        proof {
            reveal_strlit("Cargo.toml");
            reveal_strlit("src/lib.rs");
            assert("Cargo.toml"@[0] != "src/lib.rs"@[0]);
            lemma_two_files(
                "Cargo.toml"@,
                cargo_toml(manifest_dir@),
                "src/lib.rs"@,
                lib_source(*builder),
            );
        }

        let mut available_space = "".to_string();
        text::push_decimal(&mut available_space, builder.available_space);
        proof {
            reveal_strlit("");
            reveal_strlit("{available_space}");
            assert(available_space@ =~= text::decimal(builder.available_space as int));
        }
        let link_script = text::replace(link_template, "{available_space}", available_space.as_str());

        let mut rewrites: Vec<Rewrite> = Vec::new();
        rewrites.push(
            Rewrite::Replace {
                start: "\"relocation-model\"".to_string(),
                end: ",".to_string(),
                replace: "\"relocation-model\": \"pic\"".to_string(),
            },
        );
        rewrites.push(Rewrite::Add { value: ",\n\"dynamic-linking\": true\n".to_string() });

        WorkloadBuild { arch, files, link_script, rewrites }
    }

    /// Whether the end of every write of the workload can be told.
    pub fn is_bounded(&self) -> (yes: bool)
        ensures
            yes == fits(self.data@.writes),
    {
        let ghost writes = self.data@.writes;
        for i in 0..self.data.writes.len()
            invariant
                writes == self.data@.writes,
                forall|j: int|
                    0 <= j < i ==> (#[trigger] writes[j]).0 + writes[j].1.len() <= usize::MAX,
        {
            let write = &self.data.writes[i];
            assert(writes[i as int] == write@);
            let end: u128 = write.addr as u128 + write.data.len() as u128;
            if end > usize::MAX as u128 {
                return false;
            }
        }
        true
    }

    /// The workload as one block of bytes, and the relocations that it needs.
    pub fn get_binary(&self) -> (result: (Vec<loader::KernelRelocation>, Vec<u8>))
        requires
            fits(self.data@.writes),
        ensures
            kernel::relocations_view(result.0@) == self.data@.relocations,
            result.1@ == binary_of(self.data@.writes),
    {
        let mut kernel_binary: Vec<u8> = Vec::new();
        let ghost writes = self.data@.writes;
        for i in 0..self.data.writes.len()
            invariant
                writes == self.data@.writes,
                fits(writes),
                kernel_binary@ == binary_of(writes.take(i as int)),
        {
            let write = &self.data.writes[i];
            let ghost before = kernel_binary@;
            assert(writes[i as int] == write@);
            assert(writes.take(i + 1).drop_last() =~= writes.take(i as int));
            let addr = bytes::u32_to_le(write.addr);
            kernel_binary.extend_from_slice(addr.as_slice());
            let start: usize = write.addr as usize;
            let end: usize = start + write.data.len();
            let ghost longer = kernel_binary@;
            if end > kernel_binary.len() {
                kernel_binary.resize(end, 0);
                assert(kernel_binary@ =~= longer + Seq::new(
                    (end - longer.len()) as nat,
                    |j: int| 0u8,
                ));
            }
            place(&mut kernel_binary, start, write.data.as_slice());
            assert(kernel_binary@ =~= with_write(before, write@));
        }
        assert(writes.take(writes.len() as int) =~= writes);
        (kernel::copy_relocations(&self.data.relocations), kernel_binary)
    }
}

/// Whether the end of every write can be told.
pub open spec fn fits(writes: Seq<(u32, Seq<u8>)>) -> bool {
    forall|i: int|
        0 <= i < writes.len() ==> (#[trigger] writes[i]).0 + writes[i].1.len() <= usize::MAX
}

/// A block of bytes after one more write: the write's address is appended first, then the block is
/// filled up with zeros to the end of the write, then the bytes are written.
pub open spec fn with_write(binary: Seq<u8>, write: (u32, Seq<u8>)) -> Seq<u8> {
    let longer = binary + bytes::le32(write.0);
    let end = write.0 + write.1.len();
    let filled = if end > longer.len() {
        longer + Seq::new((end - longer.len()) as nat, |i: int| 0u8)
    } else {
        longer
    };
    bytes::overlay(filled, write.0 as int, write.1)
}

/// The writes of a kernel as one block.
pub open spec fn binary_of(writes: Seq<(u32, Seq<u8>)>) -> Seq<u8>
    decreases writes.len(),
{
    if writes.len() == 0 {
        seq![]
    } else {
        with_write(binary_of(writes.drop_last()), writes.last())
    }
}

/// Writes `data` at `start`.
fn place(binary: &mut Vec<u8>, start: usize, data: &[u8])
    requires
        start + data@.len() <= old(binary)@.len(),
    ensures
        final(binary)@ == bytes::overlay(old(binary)@, start as int, data@),
{
    let total: usize = binary.len();
    for i in 0..data.len()
        invariant
            total == binary@.len(),
            start + data@.len() <= total,
            binary@ == bytes::overlay(old(binary)@, start as int, data@.take(i as int)),
    {
        binary.set(start + i, data[i]);
        assert(binary@ =~= bytes::overlay(old(binary)@, start as int, data@.take(i + 1)));
    }
    assert(data@.take(data@.len() as int) =~= data@);
    assert(binary@ =~= bytes::overlay(old(binary)@, start as int, data@));
}

/// Whether no two writes touch one byte.
pub open spec fn apart(writes: Seq<(u32, Seq<u8>)>) -> bool {
    forall|i: int, j: int|
        0 <= i < j < writes.len() ==> {
            ||| (#[trigger] writes[i]).0 + writes[i].1.len() <= (#[trigger] writes[j]).0
            ||| writes[j].0 + writes[j].1.len() <= writes[i].0
        }
}

/// A block reaches to the end of every write, and what was in it before a write stays but for the
/// bytes that are written.
pub proof fn a_write_only_adds(binary: Seq<u8>, write: (u32, Seq<u8>), i: int)
    requires
        0 <= i < binary.len(),
        !(write.0 <= i < write.0 + write.1.len()),
    ensures
        with_write(binary, write).len() >= binary.len(),
        with_write(binary, write).len() >= write.0 + write.1.len(),
        with_write(binary, write)[i] == binary[i],
{
}

/// Writes that do not touch each other all stand in the block at their addresses.
pub proof fn writes_apart_are_all_in_place(writes: Seq<(u32, Seq<u8>)>, i: int)
    requires
        apart(writes),
        0 <= i < writes.len(),
    ensures
        writes[i].0 + writes[i].1.len() <= binary_of(writes).len(),
        binary_of(writes).subrange(writes[i].0 as int, writes[i].0 + writes[i].1.len())
            == writes[i].1,
    decreases writes.len(),
{
    let start = writes[i].0 as int;
    let end = start + writes[i].1.len();
    let before = writes.drop_last();
    let last = writes.last();
    let block = binary_of(writes);
    if i < before.len() {
        assert forall|a: int, b: int| 0 <= a < b < before.len() implies {
            ||| (#[trigger] before[a]).0 + before[a].1.len() <= (#[trigger] before[b]).0
            ||| before[b].0 + before[b].1.len() <= before[a].0
        } by {
            assert(writes[a] == before[a] && writes[b] == before[b]);
        }
        writes_apart_are_all_in_place(before, i);
        assert(writes[i] == before[i]);
        assert(writes[writes.len() - 1] == last);
        assert forall|k: int| start <= k < end implies #[trigger] block[k] == writes[i].1[k
            - start] by {
            a_write_only_adds(binary_of(before), last, k);
            assert(binary_of(before).subrange(start, end)[k - start] == writes[i].1[k - start]);
        }
    }
    assert(block.subrange(start, end) =~= writes[i].1);
}

/// Whether `source` declares `symbol` as a word that is shared with the host.
pub open spec fn declares_word(source: Seq<char>, symbol: Seq<char>) -> bool {
    exists|before: Seq<char>, behind: Seq<char>|
        source == #[trigger] (before + ("static "@ + symbol + ": SYNC<u32> = SYNC::new(0);"@)
            + behind)
}

/// A declaration is still there when more is written before and behind it.
proof fn lemma_declares_within(
    before: Seq<char>,
    source: Seq<char>,
    behind: Seq<char>,
    symbol: Seq<char>,
)
    requires
        declares_word(source, symbol),
    ensures
        declares_word(before + source + behind, symbol),
{
    let declaration = "static "@ + symbol + ": SYNC<u32> = SYNC::new(0);"@;
    let (head, tail) = choose|head: Seq<char>, tail: Seq<char>|
        source == #[trigger] (head + declaration + tail);
    assert(before + source + behind =~= (before + head) + declaration + (tail + behind));
}

proof fn lemma_index_declares(symbol: Seq<char>)
    ensures
        declares_word(index_declaration(symbol), symbol),
{
    reveal_strlit("static ");
    reveal_strlit(": SYNC<u32> = SYNC::new(0);");
    reveal_strlit(r#"
            #[unsafe(no_mangle)]
            static "#);
    reveal_strlit(r#": SYNC<u32> = SYNC::new(0);
          "#);
    let head = INDEX_HEAD@.take(INDEX_HEAD@.len() - 7);
    let tail = INDEX_TAIL@.skip(27);
    let declaration = "static "@ + symbol + ": SYNC<u32> = SYNC::new(0);"@;
    assert(INDEX_HEAD@ =~= head + "static "@);
    assert(INDEX_TAIL@ =~= ": SYNC<u32> = SYNC::new(0);"@ + tail);
    assert(index_declaration(symbol) =~= head + declaration + tail);
}

proof fn lemma_slot_declares(name: Seq<char>, slot: int)
    ensures
        declares_word(slot_declaration(name, slot), read_symbol(name, slot)),
{
    reveal_strlit("static ");
    reveal_strlit(": SYNC<u32> = SYNC::new(0);");
    reveal_strlit(r#"
                #[unsafe(no_mangle)]
                static "#);
    reveal_strlit(r#": SYNC<u32> = SYNC::new(0);
            "#);
    let symbol = read_symbol(name, slot);
    let head = SLOT_HEAD@.take(SLOT_HEAD@.len() - 7);
    let tail = SLOT_TAIL@.skip(27);
    let declaration = "static "@ + symbol + ": SYNC<u32> = SYNC::new(0);"@;
    assert(SLOT_HEAD@ =~= head + "static "@);
    assert(SLOT_TAIL@ =~= ": SYNC<u32> = SYNC::new(0);"@ + tail);
    assert(slot_declaration(name, slot) =~= head + declaration + tail);
}

proof fn lemma_slots_declare(name: Seq<char>, count: int, slot: int)
    requires
        0 <= slot < count,
    ensures
        declares_word(slot_declarations(name, count), read_symbol(name, slot)),
    decreases count,
{
    let fewer = slot_declarations(name, count - 1);
    let last = slot_declaration(name, count - 1);
    if slot == count - 1 {
        lemma_slot_declares(name, slot);
        lemma_declares_within(fewer, last, seq![], read_symbol(name, slot));
        assert(fewer + last + seq![] =~= fewer + last);
    } else {
        lemma_slots_declare(name, count - 1, slot);
        lemma_declares_within(seq![], fewer, last, read_symbol(name, slot));
        assert(seq![] + fewer + last =~= fewer + last);
    }
}

/// The words by which the host follows an output buffer are declared with it, under the names that
/// the buffer's slots give.
pub proof fn output_buffers_declare_what_the_host_reads(
    name: Seq<char>,
    size: int,
    count: int,
    slot: int,
)
    requires
        0 <= slot < count,
    ensures
        declares_word(output_declarations(name, size, count), read_symbol(name, slot)),
        declares_word(
            output_declarations(name, size, count),
            buffer_symbol(name) + "_FLUSHED"@,
        ),
        declares_word(
            output_declarations(name, size, count),
            buffer_symbol(name) + "_WRITE_INDEX"@,
        ),
{
    let all = output_declarations(name, size, count);
    let slots = slot_declarations(name, count);
    let smallest = smallest_read(name, size + 1, count);
    let flushed = index_declaration(buffer_symbol(name) + "_FLUSHED"@);
    let write = index_declaration(buffer_symbol(name) + "_WRITE_INDEX"@);
    let data = data_declaration(buffer_symbol(name) + "_DATA"@, size + 1);

    lemma_slots_declare(name, count, slot);
    lemma_declares_within(
        seq![],
        slots,
        smallest + flushed + write + data,
        read_symbol(name, slot),
    );
    assert(all =~= seq![] + slots + (smallest + flushed + write + data));

    lemma_index_declares(buffer_symbol(name) + "_FLUSHED"@);
    lemma_declares_within(
        slots + smallest,
        flushed,
        write + data,
        buffer_symbol(name) + "_FLUSHED"@,
    );
    assert(all =~= slots + smallest + flushed + (write + data));

    lemma_index_declares(buffer_symbol(name) + "_WRITE_INDEX"@);
    lemma_declares_within(
        slots + smallest + flushed,
        write,
        data,
        buffer_symbol(name) + "_WRITE_INDEX"@,
    );
}

/// Two readers of a buffer have different words.
pub proof fn slots_have_different_symbols(name: Seq<char>, a: int, b: int)
    requires
        0 <= a,
        0 <= b,
        read_symbol(name, a) == read_symbol(name, b),
    ensures
        a == b,
{
    let head = buffer_symbol(name) + "_SLOT_"@;
    let tail = "_READ_INDEX"@;
    let first = read_symbol(name, a);
    assert(first.skip(head.len() as int) =~= text::decimal(a) + tail);
    assert(first.skip(head.len() as int) =~= text::decimal(b) + tail);
    let count = first.len() - head.len() - tail.len();
    assert((text::decimal(a) + tail).take(count) =~= text::decimal(a));
    assert((text::decimal(b) + tail).take(count) =~= text::decimal(b));
    text::decimal_is_injective(a, b);
}

} // verus!
