//! The buffers of a workload.

use vstd::prelude::*;

use crate::builder::Rewrite;
use crate::laws::texts;
use crate::text;
use crate::workload;

verus! {

/// The declaration of an input buffer, aligned for the network.
pub open spec fn input_line(name: Seq<char>, size: int) -> Seq<char> {
    "static "@ + name + ": NocAlignment<u8, "@ + text::decimal(size)
        + "> = NocAlignment::new(0);\n"@
}

/// An input buffer is declared under its own name, with as many bytes as it is to hold.
pub proof fn an_input_buffer_has_its_size(name: Seq<char>, size: int)
    ensures
        texts::holds(workload::input_declaration(name, size), input_line(name, size)),
{
    reveal_strlit("static ");
    reveal_strlit(": NocAlignment<u8, ");
    reveal_strlit("> = NocAlignment::new(0);\n");
    reveal_strlit(r#"
            #[unsafe(no_mangle)]
            static "#);
    reveal_strlit(r#": NocAlignment<u8, "#);
    reveal_strlit(r#"> = NocAlignment::new(0);
          "#);
    let head = workload::INPUT_HEAD@.take(workload::INPUT_HEAD@.len() - 7);
    let tail = workload::INPUT_TAIL@.skip(26);
    assert(workload::INPUT_HEAD@ =~= head + "static "@);
    assert(workload::INPUT_TYPE@ =~= ": NocAlignment<u8, "@);
    assert(workload::INPUT_TAIL@ =~= "> = NocAlignment::new(0);\n"@ + tail);
    assert(workload::input_declaration(name, size) =~= head + input_line(name, size) + tail);
}

/// The declaration of the cells of an output buffer.
pub open spec fn cells_line(name: Seq<char>, cells: int) -> Seq<char> {
    "static _BUFFER_"@ + name + "_DATA: SYNC<[u8; "@ + text::decimal(cells)
        + "]> = SYNC::new([0; "@ + text::decimal(cells) + "]);\n"@
}

proof fn lemma_cells(name: Seq<char>, cells: int)
    ensures
        texts::holds(
            workload::data_declaration(workload::buffer_symbol(name) + "_DATA"@, cells),
            cells_line(name, cells),
        ),
{
    reveal_strlit("static _BUFFER_");
    reveal_strlit("_BUFFER_");
    reveal_strlit("_DATA");
    reveal_strlit("_DATA: SYNC<[u8; ");
    reveal_strlit("]> = SYNC::new([0; ");
    reveal_strlit("]);\n");
    reveal_strlit(r#"
            #[unsafe(no_mangle)]
            static "#);
    reveal_strlit(r#": SYNC<[u8; "#);
    reveal_strlit(r#"]> = SYNC::new([0; "#);
    reveal_strlit(r#"]);
          "#);
    let head = workload::INDEX_HEAD@.take(workload::INDEX_HEAD@.len() - 7);
    let tail = workload::DATA_TAIL@.skip(4);
    assert(workload::INDEX_HEAD@ + "_BUFFER_"@ =~= head + "static _BUFFER_"@);
    assert("_DATA"@ + workload::DATA_TYPE@ =~= "_DATA: SYNC<[u8; "@);
    assert(workload::DATA_VALUE@ =~= "]> = SYNC::new([0; "@);
    assert(workload::DATA_TAIL@ =~= "]);\n"@ + tail);
    let digits = text::decimal(cells);
    lemma_regroup(
        workload::INDEX_HEAD@,
        "_BUFFER_"@,
        name,
        "_DATA"@,
        workload::DATA_TYPE@,
        digits + workload::DATA_VALUE@ + digits + workload::DATA_TAIL@,
    );
    assert(workload::data_declaration(workload::buffer_symbol(name) + "_DATA"@, cells)
        =~= workload::INDEX_HEAD@ + ("_BUFFER_"@ + name + "_DATA"@) + workload::DATA_TYPE@ + (digits
        + workload::DATA_VALUE@ + digits + workload::DATA_TAIL@));
    assert(head + "static _BUFFER_"@ + name + "_DATA: SYNC<[u8; "@ + (digits + workload::DATA_VALUE@
        + digits + workload::DATA_TAIL@) =~= head + cells_line(name, cells) + tail);
}

proof fn lemma_regroup(
    a: Seq<char>,
    b: Seq<char>,
    c: Seq<char>,
    d: Seq<char>,
    e: Seq<char>,
    f: Seq<char>,
)
    ensures
        a + (b + c + d) + e + f == (a + b) + c + (d + e) + f,
{
    assert(a + (b + c + d) + e + f =~= (a + b) + c + (d + e) + f);
}

/// An output buffer has a cell more than the bytes that it is to hold.
pub proof fn an_output_buffer_has_a_cell_more(name: Seq<char>, size: int, count: int)
    ensures
        texts::holds(
            workload::output_declarations(name, size, count),
            cells_line(name, size + 1),
        ),
{
    lemma_cells(name, size + 1);
    let data = workload::data_declaration(workload::buffer_symbol(name) + "_DATA"@, size + 1);
    let before = workload::slot_declarations(name, count) + workload::smallest_read(
        name,
        size + 1,
        count,
    ) + workload::index_declaration(workload::buffer_symbol(name) + "_FLUSHED"@)
        + workload::index_declaration(workload::buffer_symbol(name) + "_WRITE_INDEX"@);
    texts::parts_of_parts_are_parts(before, data, seq![], cells_line(name, size + 1));
    assert(before + data + seq![] =~= workload::output_declarations(name, size, count));
}

/// The lines that ask how far one reader is, where `variable` is what its index is called then.
pub open spec fn reader_lines(
    variable: Seq<char>,
    symbol: Seq<char>,
    between: Seq<char>,
    cells: int,
) -> Seq<char> {
    variable + " = "@ + symbol + ".read();\n"@ + between + "buffer_count(write, "@ + variable
        + ", "@ + text::decimal(cells) + ");\n"@
}

/// Whether a text asks how far a reader is.
pub open spec fn asks_reader(source: Seq<char>, symbol: Seq<char>, cells: int) -> bool {
    exists|variable: Seq<char>, between: Seq<char>|
        texts::holds(source, #[trigger] reader_lines(variable, symbol, between, cells))
}

proof fn lemma_first_reader(name: Seq<char>, cells: int)
    ensures
        asks_reader(
            workload::slot_search(name, cells, 0),
            workload::read_symbol(name, 0),
            cells,
        ),
{
    reveal_strlit(" = ");
    reveal_strlit(".read();\n");
    reveal_strlit("buffer_count(write, ");
    reveal_strlit(", ");
    reveal_strlit(");\n");
    reveal_strlit("max_read");
    reveal_strlit(r#"
                    let mut max_read = "#);
    reveal_strlit(r#".read();
                    let mut max_count = buffer_count(write, max_read, "#);
    reveal_strlit(r#");
                    "#);
    let head = workload::FIRST_READ@.take(workload::FIRST_READ@.len() - 11);
    let between = workload::FIRST_COUNT@.subrange(9, workload::FIRST_COUNT@.len() - 30);
    let tail = workload::FIRST_TAIL@.skip(3);
    let symbol = workload::read_symbol(name, 0);
    let variable = "max_read"@;
    assert(workload::FIRST_READ@ =~= head + (variable + " = "@));
    assert(workload::FIRST_COUNT@ =~= ".read();\n"@ + between + "buffer_count(write, "@ + variable
        + ", "@);
    assert(workload::FIRST_TAIL@ =~= ");\n"@ + tail);
    lemma_reader(
        workload::FIRST_READ@,
        head,
        variable,
        symbol,
        workload::FIRST_COUNT@,
        between,
        cells,
        workload::FIRST_TAIL@,
        tail,
    );
}

proof fn lemma_next_reader(name: Seq<char>, cells: int, slot: int)
    requires
        slot > 0,
    ensures
        asks_reader(
            workload::slot_search(name, cells, slot),
            workload::read_symbol(name, slot),
            cells,
        ),
{
    reveal_strlit(" = ");
    reveal_strlit(".read();\n");
    reveal_strlit("buffer_count(write, ");
    reveal_strlit(", ");
    reveal_strlit(");\n");
    reveal_strlit("new_max_read");
    reveal_strlit(r#"
                let new_max_read = "#);
    reveal_strlit(r#".read();
                let new_max_count = buffer_count(write, new_max_read, "#);
    reveal_strlit(r#");
                if new_max_count > max_count {
                    max_read = new_max_read;
                    max_count = new_max_count;
                }
                "#);
    let head = workload::NEXT_READ@.take(workload::NEXT_READ@.len() - 15);
    let between = workload::NEXT_COUNT@.subrange(9, workload::NEXT_COUNT@.len() - 34);
    let tail = workload::NEXT_TAIL@.skip(3);
    let symbol = workload::read_symbol(name, slot);
    let variable = "new_max_read"@;
    assert(workload::NEXT_READ@ =~= head + (variable + " = "@));
    assert(workload::NEXT_COUNT@ =~= ".read();\n"@ + between + "buffer_count(write, "@ + variable
        + ", "@);
    assert(workload::NEXT_TAIL@ =~= ");\n"@ + tail);
    lemma_reader(
        workload::NEXT_READ@,
        head,
        variable,
        symbol,
        workload::NEXT_COUNT@,
        between,
        cells,
        workload::NEXT_TAIL@,
        tail,
    );
}

proof fn lemma_reader(
    lead: Seq<char>,
    head: Seq<char>,
    variable: Seq<char>,
    symbol: Seq<char>,
    middle: Seq<char>,
    between: Seq<char>,
    cells: int,
    end: Seq<char>,
    tail: Seq<char>,
)
    requires
        lead == head + (variable + " = "@),
        middle == ".read();\n"@ + between + "buffer_count(write, "@ + variable + ", "@,
        end == ");\n"@ + tail,
    ensures
        asks_reader(lead + symbol + middle + text::decimal(cells) + end, symbol, cells),
{
    let digits = text::decimal(cells);
    let lines = reader_lines(variable, symbol, between, cells);
    assert(lead + symbol + middle + digits + end =~= head + ((variable + " = "@) + symbol + middle
        + digits + ");\n"@) + tail);
    assert(lines =~= (variable + " = "@) + symbol + middle + digits + ");\n"@);
}

proof fn lemma_asks_within(
    before: Seq<char>,
    source: Seq<char>,
    behind: Seq<char>,
    symbol: Seq<char>,
    cells: int,
)
    requires
        asks_reader(source, symbol, cells),
    ensures
        asks_reader(before + source + behind, symbol, cells),
{
    let (variable, between) = choose|variable: Seq<char>, between: Seq<char>|
        texts::holds(source, #[trigger] reader_lines(variable, symbol, between, cells));
    texts::parts_of_parts_are_parts(
        before,
        source,
        behind,
        reader_lines(variable, symbol, between, cells),
    );
}

proof fn lemma_searches(name: Seq<char>, cells: int, count: int, slot: int)
    requires
        0 <= slot < count,
    ensures
        asks_reader(
            workload::slot_searches(name, cells, count),
            workload::read_symbol(name, slot),
            cells,
        ),
    decreases count,
{
    let fewer = workload::slot_searches(name, cells, count - 1);
    let last = workload::slot_search(name, cells, count - 1);
    let symbol = workload::read_symbol(name, slot);
    if slot == count - 1 {
        if slot == 0 {
            lemma_first_reader(name, cells);
        } else {
            lemma_next_reader(name, cells, slot);
        }
        lemma_asks_within(fewer, last, seq![], symbol, cells);
        assert(fewer + last + seq![] =~= fewer + last);
    } else {
        lemma_searches(name, cells, count - 1, slot);
        lemma_asks_within(seq![], fewer, last, symbol, cells);
        assert(seq![] + fewer + last =~= fewer + last);
    }
}

/// A kernel that looks for room in an output buffer asks every reader of the buffer how far it is,
/// by as many cells as there are.
pub proof fn every_reader_is_asked(name: Seq<char>, size: int, count: int, slot: int)
    requires
        0 <= slot < count,
    ensures
        asks_reader(
            workload::output_declarations(name, size, count),
            workload::read_symbol(name, slot),
            size + 1,
        ),
{
    let searches = workload::slot_searches(name, size + 1, count);
    let symbol = workload::read_symbol(name, slot);
    lemma_searches(name, size + 1, count, slot);
    let start = "fn smallest_read_for_"@ + workload::buffer_symbol(name)
        + "(write: u32) -> u32 {"@ + ""@;
    let smallest = workload::smallest_read(name, size + 1, count);
    assert(smallest == start + searches + "max_read\n}"@);
    lemma_asks_within(start, searches, "max_read\n}"@, symbol, size + 1);
    let slots = workload::slot_declarations(name, count);
    let rest = workload::index_declaration(workload::buffer_symbol(name) + "_FLUSHED"@)
        + workload::index_declaration(workload::buffer_symbol(name) + "_WRITE_INDEX"@)
        + workload::data_declaration(workload::buffer_symbol(name) + "_DATA"@, size + 1);
    lemma_asks_within(slots, smallest, rest, symbol, size + 1);
    assert(slots + smallest + rest =~= workload::output_declarations(name, size, count));
}

/// The function that finds the reader furthest behind is named after its buffer, and gives what the
/// search found; where a buffer has no reader, that is zero.
pub proof fn the_search_gives_what_it_found(name: Seq<char>, cells: int, count: int)
    ensures
        ({
            let search = workload::smallest_read(name, cells, count);
            let head = "fn smallest_read_for__BUFFER_"@ + name + "(write: u32) -> u32 {"@;
            &&& head.is_prefix_of(search)
            &&& "max_read\n}"@.is_suffix_of(search)
            &&& count == 0 ==> search == head + "let max_read = 0;\nmax_read\n}"@
        }),
{
    reveal_strlit("fn smallest_read_for_");
    reveal_strlit("_BUFFER_");
    reveal_strlit("fn smallest_read_for__BUFFER_");
    reveal_strlit("(write: u32) -> u32 {");
    reveal_strlit("let max_read = 0;\n");
    reveal_strlit("let max_read = 0;\nmax_read\n}");
    reveal_strlit("max_read\n}");
    reveal_strlit("");
    let search = workload::smallest_read(name, cells, count);
    let head = "fn smallest_read_for__BUFFER_"@ + name + "(write: u32) -> u32 {"@;
    let end = "max_read\n}"@;
    assert("fn smallest_read_for_"@ + workload::buffer_symbol(name)
        =~= "fn smallest_read_for__BUFFER_"@ + name);
    assert(search.take(head.len() as int) =~= head);
    assert(search.skip(search.len() - end.len()) =~= end);
    if count == 0 {
        assert("let max_read = 0;\n"@ + ""@ + end =~= "let max_read = 0;\nmax_read\n}"@);
        assert(workload::slot_searches(name, cells, 0) == ""@);
        assert(search =~= head + ("let max_read = 0;\n"@ + ""@ + end));
    }
}

/// A workload is built for a target that differs from the standard one in two things: the relocation
/// model, up to the comma that ends it, is the position-independent one, and dynamic linking is added.
pub proof fn workloads_are_built_position_independent(rewrites: Seq<Rewrite>)
    requires
        workload::position_independent(rewrites),
    ensures
        rewrites.len() == 2,
        rewrites[0] is Replace && rewrites[1] is Add,
        rewrites[0]->start@ == "\"relocation-model\""@,
        rewrites[0]->end@ == ","@,
        rewrites[0]->replace@ == rewrites[0]->start@ + ": \"pic\""@,
        rewrites[1]->value@ == rewrites[0]->end@ + "\n\"dynamic-linking\": true\n"@,
{
    reveal_strlit("\"relocation-model\"");
    reveal_strlit("\"relocation-model\": \"pic\"");
    reveal_strlit(": \"pic\"");
    reveal_strlit(",");
    reveal_strlit(",\n\"dynamic-linking\": true\n");
    reveal_strlit("\n\"dynamic-linking\": true\n");
    assert("\"relocation-model\": \"pic\""@ =~= "\"relocation-model\""@ + ": \"pic\""@);
    assert(",\n\"dynamic-linking\": true\n"@ =~= ","@ + "\n\"dynamic-linking\": true\n"@);
}

} // verus!
