//! The loops over the elements of tensors.

use vstd::prelude::*;

use crate::laws::texts;
use crate::text;
use crate::workload;

verus! {

/// A statement of the generated source.
pub enum Statement {
    /// Begins a loop in which `counter` runs from zero up to `limit`.
    Repeat { counter: Seq<char>, limit: int },
    /// Declares an offset: `base`, where there is one, and `stride` for each step of `counter`.
    Offset { name: Seq<char>, base: Option<Seq<char>>, counter: Seq<char>, stride: int },
    /// Declares another name for an offset.
    Name { name: Seq<char>, from: Seq<char> },
    /// What is done in the innermost loop.
    Body { text: Seq<char> },
    /// Ends a loop.
    End,
}

impl Statement {
    /// How a statement is written.
    pub open spec fn written(self) -> Seq<char> {
        match self {
            Statement::Repeat { counter, limit } => "for "@ + counter + " in 0.."@ + text::signed(
                limit,
            ) + "u32 {"@,
            Statement::Offset { name, base, counter, stride } => "let "@ + name + " = "@ + (
            match base {
                Some(base) => base + " + "@,
                None => ""@,
            }) + counter + " * "@ + text::decimal(stride) + ";"@,
            Statement::Name { name, from } => "let "@ + name + " = "@ + from + ";"@,
            Statement::Body { text } => text,
            Statement::End => "}"@,
        }
    }

    /// The values of the names after a statement, in the iteration where the counter that it begins,
    /// if it begins one, has the value `at`.
    pub open spec fn after(self, values: Map<Seq<char>, int>, at: int) -> Map<Seq<char>, int> {
        match self {
            Statement::Repeat { counter, .. } => values.insert(counter, at),
            Statement::Offset { name, base, counter, stride } => values.insert(
                name,
                (match base {
                    Some(base) => values[base],
                    None => 0,
                }) + values[counter] * stride,
            ),
            Statement::Name { name, from } => values.insert(name, values[from]),
            _ => values,
        }
    }
}

/// How many loops statements begin.
pub open spec fn depth(statements: Seq<Statement>) -> int
    decreases statements.len(),
{
    if statements.len() == 0 {
        0
    } else {
        depth(statements.drop_last()) + if statements.last() is Repeat {
            1int
        } else {
            0
        }
    }
}

/// The values of the names behind statements, in the iteration where the counters of their loops are
/// at `point`, the outermost first.
pub open spec fn values_at(statements: Seq<Statement>, point: Seq<int>) -> Map<Seq<char>, int>
    decreases statements.len(),
{
    if statements.len() == 0 {
        Map::empty()
    } else {
        let before = statements.drop_last();
        statements.last().after(values_at(before, point), point[depth(before)])
    }
}

/// Where the element at `point` of a tensor lies, by its strides along the first `dims` dimensions.
pub open spec fn element_offset(strides: Seq<usize>, point: Seq<int>, dims: int) -> int
    decreases dims,
{
    if dims <= 0 {
        0
    } else {
        element_offset(strides, point, dims - 1) + point[dims - 1] * strides[dims - 1]
    }
}

/// Whether statements are loops over `shape`, one within the other, with `body` in the innermost:
/// `head` is what comes before it.
pub open spec fn are_loops(
    head: Seq<Statement>,
    shape: Seq<i64>,
    body: Seq<char>,
    statements: Seq<Statement>,
) -> bool {
    &&& statements == head + seq![Statement::Body { text: body }] + Seq::new(
        shape.len(),
        |i: int| Statement::End,
    )
    &&& depth(head) == shape.len()
    &&& forall|i: int|
        0 <= i < head.len() ==> {
            &&& !((#[trigger] head[i]) is Body)
            &&& !(head[i] is End)
            &&& head[i] is Repeat ==> 0 <= depth(head.take(i)) < shape.len() && head[i]->limit
                == shape[depth(head.take(i))]
        }
}

spec fn counter(index: int) -> Seq<char> {
    "_"@ + text::decimal(index) + "_it"@
}

spec fn offset_statement(tensor: int, index: int, stride: int) -> Statement {
    Statement::Offset {
        name: workload::dim_index(tensor, index),
        base: if index == 0 {
            None
        } else {
            Some(workload::dim_index(tensor, index - 1))
        },
        counter: counter(index),
        stride,
    }
}

spec fn offset_statements(strides: Seq<Seq<usize>>, index: int, count: int) -> Seq<Statement> {
    Seq::new(count as nat, |t: int| offset_statement(t, index, strides[t][index] as int))
}

spec fn loop_statements(shape: Seq<i64>, strides: Seq<Seq<usize>>, count: int) -> Seq<Statement>
    decreases count,
{
    if count <= 0 {
        seq![]
    } else {
        loop_statements(shape, strides, count - 1).push(
            Statement::Repeat { counter: counter(count - 1), limit: shape[count - 1] as int },
        ) + offset_statements(strides, count - 1, strides.len() as int)
    }
}

spec fn name_statements(dims: int, count: int) -> Seq<Statement> {
    Seq::new(
        count as nat,
        |t: int|
            Statement::Name {
                name: workload::tensor_index(t),
                from: workload::dim_index(t, dims - 1),
            },
    )
}

/// The lines that statements are written as.
pub open spec fn all_written(statements: Seq<Statement>) -> Seq<Seq<char>> {
    statements.map_values(|statement: Statement| statement.written())
}

proof fn lemma_offset_written(tensor: int, index: int, stride: int)
    ensures
        offset_statement(tensor, index, stride).written() == workload::stride_line(
            tensor,
            index,
            stride,
        ),
{
    reveal_strlit("");
    reveal_strlit("_it");
    reveal_strlit(" * ");
    reveal_strlit("_it * ");
    assert(offset_statement(tensor, index, stride).written() =~= workload::stride_line(
        tensor,
        index,
        stride,
    ));
}

proof fn lemma_repeat_written(index: int, dim: int)
    ensures
        (Statement::Repeat { counter: counter(index), limit: dim }).written()
            == workload::loop_line(index, dim),
{
    reveal_strlit("for ");
    reveal_strlit("_");
    reveal_strlit("for _");
    reveal_strlit("_it");
    reveal_strlit(" in 0..");
    reveal_strlit("_it in 0..");
    assert((Statement::Repeat { counter: counter(index), limit: dim }).written()
        =~= workload::loop_line(index, dim));
}

proof fn lemma_loops_written(shape: Seq<i64>, strides: Seq<Seq<usize>>, count: int)
    ensures
        all_written(loop_statements(shape, strides, count)) == workload::dim_lines(
            shape,
            strides,
            count,
        ),
    decreases count,
{
    if count > 0 {
        lemma_loops_written(shape, strides, count - 1);
        lemma_repeat_written(count - 1, shape[count - 1] as int);
        let steps = offset_statements(strides, count - 1, strides.len() as int);
        assert forall|t: int| 0 <= t < strides.len() implies (#[trigger] steps[t]).written()
            == workload::stride_line(t, count - 1, strides[t][count - 1] as int) by {
            lemma_offset_written(t, count - 1, strides[t][count - 1] as int);
        }
        assert(all_written(steps) =~= workload::stride_lines(
            strides,
            count - 1,
            strides.len() as int,
        ));
    }
    assert(all_written(loop_statements(shape, strides, count)) =~= workload::dim_lines(
        shape,
        strides,
        count,
    ));
}

/// A number stands out of the text around it.
proof fn lemma_number_stands_out(a: int, b: int, first: Seq<char>, second: Seq<char>)
    requires
        0 <= a,
        0 <= b,
        first.len() > 0 && first[0] == '_',
        second.len() > 0 && second[0] == '_',
        "_"@ + text::decimal(a) + first == "_"@ + text::decimal(b) + second,
    ensures
        a == b,
        first == second,
{
    reveal_strlit("_");
    let (x, y) = (text::decimal(a), text::decimal(b));
    let s = "_"@ + x + first;
    let z = "_"@ + y + second;
    texts::decimal_reads_back(a);
    texts::decimal_reads_back(b);
    if x.len() < y.len() {
        assert(s[1 + x.len() as int] == '_');
        assert(z[1 + x.len() as int] == y[x.len() as int]);
    }
    if y.len() < x.len() {
        assert(z[1 + y.len() as int] == '_');
        assert(s[1 + y.len() as int] == x[y.len() as int]);
    }
    assert(s.subrange(1, 1 + x.len() as int) =~= x);
    assert(z.subrange(1, 1 + y.len() as int) =~= y);
    text::decimal_is_injective(a, b);
    assert(s.skip(1 + x.len() as int) =~= first);
    assert(z.skip(1 + y.len() as int) =~= second);
}

proof fn lemma_dim_index_differs(t: int, d: int, u: int, e: int)
    requires
        0 <= t,
        0 <= d,
        0 <= u,
        0 <= e,
        workload::dim_index(t, d) == workload::dim_index(u, e),
    ensures
        t == u,
        d == e,
{
    reveal_strlit("_tensor_");
    reveal_strlit("_dim_index");
    reveal_strlit("_");
    let first = "_tensor_"@ + text::decimal(d) + "_dim_index"@;
    let second = "_tensor_"@ + text::decimal(e) + "_dim_index"@;
    assert(workload::dim_index(t, d) =~= "_"@ + text::decimal(t) + first);
    assert(workload::dim_index(u, e) =~= "_"@ + text::decimal(u) + second);
    lemma_number_stands_out(t, u, first, second);
    let cut = "_tensor"@;
    reveal_strlit("_tensor");
    assert(first.skip(7) =~= "_"@ + text::decimal(d) + "_dim_index"@);
    assert(second.skip(7) =~= "_"@ + text::decimal(e) + "_dim_index"@);
    lemma_number_stands_out(d, e, "_dim_index"@, "_dim_index"@);
}

/// The names of counters, offsets and elements differ.
proof fn lemma_names_differ(t: int, d: int, u: int, e: int)
    requires
        0 <= t,
        0 <= d,
        0 <= u,
        0 <= e,
    ensures
        counter(e) != workload::dim_index(t, d),
        workload::tensor_index(u) != workload::dim_index(t, d),
        workload::tensor_index(u) == workload::tensor_index(t) ==> t == u,
{
    reveal_strlit("_it");
    reveal_strlit("_dim_index");
    reveal_strlit("_tensor_index");
    let name = workload::dim_index(t, d);
    assert(name.last() == 'x');
    assert(counter(e).last() == 't');
    let element = workload::tensor_index(u);
    assert(name[name.len() - 7] == 'm');
    assert(element[element.len() - 7] == 'r');
    if workload::tensor_index(u) == workload::tensor_index(t) {
        lemma_number_stands_out(u, t, "_tensor_index"@, "_tensor_index"@);
    }
}

proof fn lemma_depth(shape: Seq<i64>, strides: Seq<Seq<usize>>, count: int, steps: int)
    requires
        0 < count,
        0 <= steps,
    ensures
        ({
            let begun = loop_statements(shape, strides, count - 1).push(
                Statement::Repeat { counter: counter(count - 1), limit: shape[count - 1] as int },
            );
            depth(begun + offset_statements(strides, count - 1, steps)) == count
        }),
    decreases count, steps,
{
    let before = loop_statements(shape, strides, count - 1);
    let begun = before.push(
        Statement::Repeat { counter: counter(count - 1), limit: shape[count - 1] as int },
    );
    if steps == 0 {
        assert(begun + offset_statements(strides, count - 1, 0) =~= begun);
        assert(begun.drop_last() =~= before);
        if count > 1 {
            lemma_depth(shape, strides, count - 1, strides.len() as int);
        } else {
            assert(before =~= seq![]);
        }
        assert(depth(before) == count - 1);
        assert(begun.last() is Repeat);
    } else {
        lemma_depth(shape, strides, count, steps - 1);
        let all = begun + offset_statements(strides, count - 1, steps);
        assert(all.drop_last() =~= begun + offset_statements(strides, count - 1, steps - 1));
        assert(all.last() == offset_statement(
            steps - 1,
            count - 1,
            strides[steps - 1][count - 1] as int,
        ));
    }
}

/// The values within the loops over the first `count` dimensions, when the offsets of the first
/// `steps` tensors are declared in the last of them.
proof fn lemma_values(
    shape: Seq<i64>,
    strides: Seq<Seq<usize>>,
    count: int,
    steps: int,
    point: Seq<int>,
)
    requires
        0 < count <= point.len(),
        0 <= steps <= strides.len(),
    ensures
        ({
            let begun = loop_statements(shape, strides, count - 1).push(
                Statement::Repeat { counter: counter(count - 1), limit: shape[count - 1] as int },
            );
            let values = values_at(begun + offset_statements(strides, count - 1, steps), point);
            &&& values[counter(count - 1)] == point[count - 1]
            &&& forall|t: int|
                0 <= t < steps ==> values[#[trigger] workload::dim_index(t, count - 1)]
                    == element_offset(strides[t], point, count)
            &&& count > 1 ==> forall|t: int|
                0 <= t < strides.len() ==> values[#[trigger] workload::dim_index(t, count - 2)]
                    == element_offset(strides[t], point, count - 1)
        }),
    decreases count, steps,
{
    let before = loop_statements(shape, strides, count - 1);
    let begun = before.push(
        Statement::Repeat { counter: counter(count - 1), limit: shape[count - 1] as int },
    );
    let d = count - 1;
    if steps == 0 {
        let all = begun + offset_statements(strides, d, 0);
        assert(all =~= begun);
        assert(begun.drop_last() =~= before);
        if count > 1 {
            lemma_values(shape, strides, count - 1, strides.len() as int, point);
            lemma_depth(shape, strides, count - 1, strides.len() as int);
            let values = values_at(all, point);
            assert forall|t: int| 0 <= t < strides.len() implies values[
                #[trigger] workload::dim_index(t, count - 2)] == element_offset(
                strides[t],
                point,
                count - 1,
            ) by {
                lemma_names_differ(t, count - 2, 0, d);
            }
        } else {
            assert(before =~= seq![]);
        }
    } else {
        lemma_values(shape, strides, count, steps - 1, point);
        let fewer = begun + offset_statements(strides, d, steps - 1);
        let all = begun + offset_statements(strides, d, steps);
        let t = steps - 1;
        let stride = strides[t][d] as int;
        assert(all.drop_last() =~= fewer);
        assert(all.last() == offset_statement(t, d, stride));
        let old_values = values_at(fewer, point);
        let values = values_at(all, point);
        lemma_names_differ(t, d, 0, d);
        assert(element_offset(strides[t], point, 0) == 0);
        if count > 1 {
            assert(old_values[workload::dim_index(t, count - 2)] == element_offset(
                strides[t],
                point,
                count - 1,
            ));
        }
        assert(old_values[counter(d)] == point[d]);
        assert(values[workload::dim_index(t, d)] == element_offset(strides[t], point, count));
        assert forall|u: int| 0 <= u < steps implies values[#[trigger] workload::dim_index(u, d)]
            == element_offset(strides[u], point, count) by {
            if u != t && workload::dim_index(u, d) == workload::dim_index(t, d) {
                lemma_dim_index_differs(u, d, t, d);
            }
        }
        if count > 1 {
            assert forall|u: int| 0 <= u < strides.len() implies values[
                #[trigger] workload::dim_index(u, count - 2)] == element_offset(
                strides[u],
                point,
                count - 1,
            ) by {
                if workload::dim_index(u, count - 2) == workload::dim_index(t, d) {
                    lemma_dim_index_differs(u, count - 2, t, d);
                }
            }
        }
    }
}

proof fn lemma_named(
    shape: Seq<i64>,
    strides: Seq<Seq<usize>>,
    names: int,
    point: Seq<int>,
)
    requires
        0 < shape.len() == point.len(),
        0 <= names <= strides.len(),
    ensures
        ({
            let dims = shape.len() as int;
            let head = loop_statements(shape, strides, dims) + name_statements(dims, names);
            let values = values_at(head, point);
            &&& depth(head) == dims
            &&& forall|t: int|
                0 <= t < strides.len() ==> values[#[trigger] workload::dim_index(t, dims - 1)]
                    == element_offset(strides[t], point, dims)
            &&& forall|t: int|
                0 <= t < names ==> values[#[trigger] workload::tensor_index(t)] == element_offset(
                    strides[t],
                    point,
                    dims,
                )
        }),
    decreases names,
{
    let dims = shape.len() as int;
    let loops = loop_statements(shape, strides, dims);
    let head = loops + name_statements(dims, names);
    if names == 0 {
        assert(head =~= loops);
        lemma_values(shape, strides, dims, strides.len() as int, point);
        lemma_depth(shape, strides, dims, strides.len() as int);
    } else {
        lemma_named(shape, strides, names - 1, point);
        let fewer = loops + name_statements(dims, names - 1);
        assert(head.drop_last() =~= fewer);
        let last = names - 1;
        assert(head.last() == (Statement::Name {
            name: workload::tensor_index(last),
            from: workload::dim_index(last, dims - 1),
        }));
        let values = values_at(head, point);
        assert forall|t: int| 0 <= t < strides.len() implies values[
            #[trigger] workload::dim_index(t, dims - 1)] == element_offset(strides[t], point, dims) by {
            lemma_names_differ(t, dims - 1, last, 0);
        }
        assert forall|t: int| 0 <= t < names implies values[#[trigger] workload::tensor_index(t)]
            == element_offset(strides[t], point, dims) by {
            lemma_names_differ(t, dims - 1, last, 0);
            assert(values_at(fewer, point)[workload::dim_index(last, dims - 1)] == element_offset(
                strides[last],
                point,
                dims,
            ));
        }
    }
}

proof fn lemma_head_is_loops(shape: Seq<i64>, strides: Seq<Seq<usize>>, count: int)
    requires
        0 <= count <= shape.len(),
    ensures
        ({
            let head = loop_statements(shape, strides, count);
            &&& depth(head) == count
            &&& forall|i: int|
                0 <= i < head.len() ==> {
                    &&& !((#[trigger] head[i]) is Body)
                    &&& !(head[i] is End)
                    &&& head[i] is Repeat ==> 0 <= depth(head.take(i)) < count && head[i]->limit
                        == shape[depth(head.take(i))]
                }
        }),
    decreases count,
{
    let head = loop_statements(shape, strides, count);
    if count > 0 {
        lemma_head_is_loops(shape, strides, count - 1);
        lemma_depth(shape, strides, count, strides.len() as int);
        let before = loop_statements(shape, strides, count - 1);
        assert forall|i: int| 0 <= i < head.len() implies {
            &&& !((#[trigger] head[i]) is Body)
            &&& !(head[i] is End)
            &&& head[i] is Repeat ==> 0 <= depth(head.take(i)) < count && head[i]->limit
                == shape[depth(head.take(i))]
        } by {
            if i < before.len() {
                assert(head[i] == before[i]);
                assert(head.take(i) =~= before.take(i));
            } else if i == before.len() {
                assert(head.take(i) =~= before);
            } else {
                let t = i - before.len() - 1;
                assert(head[i] == offset_statement(t, count - 1, strides[t][count - 1] as int));
            }
        }
    }
}

/// The generated lines are loops over all of `shape`, one within the other, with the body in the
/// innermost. There, whatever the counters are, the name that the body is given for a tensor's offset
/// stands for the sum of each counter times the tensor's stride along that dimension.
pub proof fn loops_reach_every_element(
    shape: Seq<i64>,
    strides: Seq<Seq<usize>>,
    body: Seq<char>,
) -> (result: (Seq<Statement>, Seq<Statement>))
    requires
        shape.len() > 0,
    ensures
        ({
            let (head, statements) = result;
            let lines = workload::zip_lines(shape, strides, body);
            &&& lines.len() == statements.len()
            &&& forall|i: int|
                0 <= i < lines.len() ==> #[trigger] lines[i] == statements[i].written()
            &&& are_loops(head, shape, body, statements)
            &&& forall|point: Seq<int>, t: int|
                point.len() == shape.len() && 0 <= t < strides.len() ==> #[trigger] values_at(
                    head,
                    point,
                )[workload::tensor_indexes(strides.len() as int)[t]] == element_offset(
                    strides[t],
                    point,
                    shape.len() as int,
                )
        }),
{
    let dims = shape.len() as int;
    let count = strides.len() as int;
    let loops = loop_statements(shape, strides, dims);
    let names = name_statements(dims, count);
    let head = loops + names;
    let ends = Seq::new(shape.len(), |i: int| Statement::End);
    let statements = head + seq![Statement::Body { text: body }] + ends;
    lemma_loops_written(shape, strides, dims);
    assert(all_written(names) =~= workload::index_lines(dims, count));
    let lines = workload::zip_lines(shape, strides, body);
    assert(all_written(statements) =~= lines);
    assert forall|i: int| 0 <= i < lines.len() implies #[trigger] lines[i]
        == statements[i].written() by {
        assert(all_written(statements)[i] == statements[i].written());
    }
    lemma_head_is_loops(shape, strides, dims);
    let origin = Seq::new(shape.len(), |i: int| 0int);
    lemma_named(shape, strides, count, origin);
    assert forall|i: int| 0 <= i < head.len() implies {
        &&& !((#[trigger] head[i]) is Body)
        &&& !(head[i] is End)
        &&& head[i] is Repeat ==> 0 <= depth(head.take(i)) < shape.len() && head[i]->limit
            == shape[depth(head.take(i))]
    } by {
        if i < loops.len() {
            assert(head[i] == loops[i]);
            assert(head.take(i) =~= loops.take(i));
        } else {
            assert(head[i] == names[i - loops.len()]);
        }
    }
    assert forall|point: Seq<int>, t: int|
        point.len() == shape.len() && 0 <= t < strides.len() implies #[trigger] values_at(
        head,
        point,
    )[workload::tensor_indexes(strides.len() as int)[t]] == element_offset(
        strides[t],
        point,
        shape.len() as int,
    ) by {
        lemma_named(shape, strides, count, point);
        assert(workload::tensor_indexes(count)[t] == workload::tensor_index(t));
    }
    (head, statements)
}

} // verus!
