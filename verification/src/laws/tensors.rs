//! Adding tensors element by element.

use vstd::prelude::*;

use crate::ggml::compute_graph;
use crate::ggml::compute_graph::TtxTypes;
use crate::ggml::eltwise;
use crate::ggml::walk;
use crate::ggml::walk::Position;
use crate::ggml::{GgmlOp, GgmlTensor, GgmlType};
use crate::laws::loops;
use crate::laws::loops::Statement;
use crate::laws::texts;
use crate::workload;

verus! {

/// The number of the element at a position, the last index running fastest.
pub open spec fn element_number(shape: Seq<i64>, at: Position) -> int {
    ((at.0 * shape[1] + at.1) * shape[2] + at.2) * shape[3] + at.3
}

/// In a tensor without gaps the elements lie one behind the other, in the order of their numbers.
pub proof fn packed_elements_lie_one_behind_the_other(
    shape: Seq<i64>,
    type_size: usize,
    at: Position,
)
    requires
        shape.len() == 4,
        forall|dim: int| 0 <= dim < 4 ==> 0 <= #[trigger] shape[dim] <= usize::MAX,
    ensures
        at.0 * eltwise::packed_stride(shape, type_size, 0) + at.1 * eltwise::packed_stride(
            shape,
            type_size,
            1,
        ) + at.2 * eltwise::packed_stride(shape, type_size, 2) + at.3 * eltwise::packed_stride(
            shape,
            type_size,
            3,
        ) == element_number(shape, at) * type_size,
{
    let (s1, s2, s3) = (shape[1] as int, shape[2] as int, shape[3] as int);
    let size = type_size as int;
    reveal_with_fuel(eltwise::packed_stride, 4);
    assert(shape[1] as usize == s1 && shape[2] as usize == s2 && shape[3] as usize == s3);
    let p3 = eltwise::packed_stride(shape, type_size, 3);
    let p2 = eltwise::packed_stride(shape, type_size, 2);
    let p1 = eltwise::packed_stride(shape, type_size, 1);
    let p0 = eltwise::packed_stride(shape, type_size, 0);
    assert(p3 == size && p2 == p3 * s3 && p1 == p2 * s2 && p0 == p1 * s1);
    let (z, o, t, f) = (at.0 as int, at.1 as int, at.2 as int, at.3 as int);
    lemma_factor(z, o, p1, s1);
    let outer = z * s1 + o;
    lemma_factor(outer, t, p2, s2);
    let middle = outer * s2 + t;
    lemma_factor(middle, f, p3, s3);
}

proof fn lemma_factor(high: int, low: int, stride: int, extent: int)
    ensures
        high * (stride * extent) + low * stride == (high * extent + low) * stride,
{
    assert(high * (stride * extent) == (high * extent) * stride) by (nonlinear_arith);
    assert((high * extent + low) * stride == (high * extent) * stride + low * stride)
        by (nonlinear_arith);
}

/// The shape that tensors are broadcast to is along each dimension at least one, at least as large as
/// every tensor, and no larger than needed for that.
pub proof fn the_common_shape_is_the_least_that_holds_all(
    tensors: Seq<&GgmlTensor>,
    dim: int,
    count: int,
)
    requires
        0 <= dim < 4,
        0 <= count <= tensors.len(),
    ensures
        1 <= eltwise::widest(tensors, dim, count) <= i64::MAX,
        forall|t: int|
            0 <= t < count ==> (#[trigger] tensors[t]).ne@[dim] <= eltwise::widest(
                tensors,
                dim,
                count,
            ),
        eltwise::widest(tensors, dim, count) == 1 || exists|t: int|
            0 <= t < count && (#[trigger] tensors[t]).ne@[dim] == eltwise::widest(
                tensors,
                dim,
                count,
            ),
        count == tensors.len() ==> eltwise::common_shape(tensors)[dim] == eltwise::widest(
            tensors,
            dim,
            count,
        ),
        eltwise::common_shape(tensors).len() == 4,
    decreases count,
{
    if count > 0 {
        the_common_shape_is_the_least_that_holds_all(tensors, dim, count - 1);
        let before = eltwise::widest(tensors, dim, count - 1);
        let last = tensors[count - 1].ne@[dim] as int;
        if last > before {
            assert(tensors[count - 1].ne@[dim] == eltwise::widest(tensors, dim, count));
        } else if before != 1 {
            let t = choose|t: int|
                0 <= t < count - 1 && (#[trigger] tensors[t]).ne@[dim] == before;
            assert(tensors[t].ne@[dim] == eltwise::widest(tensors, dim, count));
        }
    }
}

/// The index of a tensor's own element along a dimension: the first where it has only one.
pub open spec fn own_index(tensor: &GgmlTensor, dim: int, index: i64) -> i64 {
    if tensor.ne@[dim] == 1 {
        0
    } else {
        index
    }
}

/// The element of a tensor that stands at a position of the common shape: where the tensor has one
/// element along a dimension, that one is repeated.
pub open spec fn own_position(tensor: &GgmlTensor, at: Position) -> Position {
    (
        own_index(tensor, 0, at.0),
        own_index(tensor, 1, at.1),
        own_index(tensor, 2, at.2),
        own_index(tensor, 3, at.3),
    )
}

/// Along each dimension of the common shape a tensor gives its own element, or repeats its only one.
pub proof fn broadcast_tensors_repeat_their_elements(
    tensors: Seq<&GgmlTensor>,
    t: int,
    at: Position,
)
    requires
        eltwise::broadcastable(tensors),
        0 <= t < tensors.len(),
        walk::in_shape(eltwise::common_shape(tensors), at),
    ensures
        ({
            let shape = eltwise::common_shape(tensors);
            let own = own_position(tensors[t], at);
            &&& walk::in_shape(tensors[t].ne@, own)
            &&& walk::offset_at(eltwise::common_strides(tensors[t], shape), at)
                == walk::offset_at(tensors[t].nb@, own)
        }),
{
    let shape = eltwise::common_shape(tensors);
    let tensor = tensors[t];
    assert(tensors[t].ne@[0] == shape[0] || tensors[t].ne@[0] == 1);
    assert(tensors[t].ne@[1] == shape[1] || tensors[t].ne@[1] == 1);
    assert(tensors[t].ne@[2] == shape[2] || tensors[t].ne@[2] == 1);
    assert(tensors[t].ne@[3] == shape[3] || tensors[t].ne@[3] == 1);
    let strides = eltwise::common_strides(tensor, shape);
    let own = own_position(tensor, at);
    lemma_one_index(tensor, shape, 0, at.0);
    lemma_one_index(tensor, shape, 1, at.1);
    lemma_one_index(tensor, shape, 2, at.2);
    lemma_one_index(tensor, shape, 3, at.3);
}

proof fn lemma_one_index(tensor: &GgmlTensor, shape: Seq<i64>, dim: int, index: i64)
    requires
        0 <= dim < 4,
        0 <= index < shape[dim],
        tensor.ne@[dim] == shape[dim] || tensor.ne@[dim] == 1,
    ensures
        index * eltwise::common_strides(tensor, shape)[dim] == own_index(tensor, dim, index)
            * tensor.nb@[dim],
{
    let stride = eltwise::common_strides(tensor, shape)[dim] as int;
    if tensor.ne@[dim] == 1 && shape[dim] > 1 {
        assert(index * 0 == 0);
        assert(0 * tensor.nb@[dim] == 0);
    }
}

/// The pieces of an operand hold, for every position of the common shape, in the order of the
/// positions' numbers, the bytes of the element that the operand gives there.
pub proof fn pieces_hold_the_elements_in_order(
    tensors: Seq<&GgmlTensor>,
    t: int,
    size: usize,
    count: int,
    at: Position,
)
    requires
        eltwise::broadcastable(tensors),
        eltwise::zippable(tensors),
        0 <= t < tensors.len(),
        eltwise::in_data(tensors[t].data@, eltwise::zip_offsets(tensors, t), size as int),
        0 < count,
        walk::in_shape(eltwise::common_shape(tensors), at),
    ensures
        ({
            let shape = eltwise::common_shape(tensors);
            let k = element_number(shape, at);
            let buffers = eltwise::piece_buffers(tensors, t, size, count);
            let place = walk::offset_at(tensors[t].nb@, own_position(tensors[t], at));
            &&& 0 <= k / count < buffers.len()
            &&& buffers[k / count].subrange((k % count) * size, (k % count) * size + size)
                == tensors[t].data@.subrange(place, place + size)
        }),
{
    let shape = eltwise::common_shape(tensors);
    let strides = eltwise::common_strides(tensors[t], shape);
    let k = element_number(shape, at);
    walk::a_walk_visits_every_position(shape, at);
    broadcast_tensors_repeat_their_elements(tensors, t, at);
    let offsets = eltwise::zip_offsets(tensors, t);
    let place = walk::offset_at(strides, at);
    assert(offsets[k] == place as usize);
    walk::offsets_are_within_reach(shape, strides, at);
    assert(walk::walkable(shape, eltwise::common_strides(tensors[t], shape)));
    assert(0 <= place <= usize::MAX);
    let elements = eltwise::elements(tensors[t].data@, offsets, size as int);
    assert forall|i: int| 0 <= i < elements.len() implies (#[trigger] elements[i]).len() == size by {
        assert(offsets[i] + size <= tensors[t].data@.len());
    }
    eltwise::pieces_hold_every_element(elements, size as int, count, k);
}

/// As many elements go into a piece as fit into a kilobyte together with those of the result.
pub proof fn a_piece_holds_as_many_elements_as_fit(a_size: usize, b_size: usize, dest_size: usize)
    requires
        0 < a_size + b_size + dest_size,
    ensures
        ({
            let count = eltwise::piece_count(a_size, b_size, dest_size);
            let total = a_size + b_size + dest_size;
            &&& 0 <= count
            &&& count * total <= 1024
            &&& 1024 < (count + 1) * total
        }),
{
    let total = a_size + b_size + dest_size;
    let count = eltwise::piece_count(a_size, b_size, dest_size);
    vstd::arithmetic::div_mod::lemma_fundamental_div_mod(1024, total);
    vstd::arithmetic::div_mod::lemma_mod_bound(1024, total);
    assert(count * total <= 1024 && 1024 < (count + 1) * total && 0 <= count) by (nonlinear_arith)
        requires
            1024 == total * count + 1024int % total,
            0 <= 1024int % total < total,
            total > 0,
    ;
}

proof fn lemma_packed_offset(shape: Seq<i64>, size: usize, point: Seq<int>)
    requires
        compute_graph::packable(shape, size),
        shape.len() == 4,
        point.len() == 4,
        forall|d: int| 0 <= d < 4 ==> 0 <= #[trigger] point[d] < shape[d],
    ensures
        loops::element_offset(compute_graph::packed_strides(shape, size), point, 4)
            == element_number(
            shape,
            (point[0] as i64, point[1] as i64, point[2] as i64, point[3] as i64),
        ) * size,
{
    let strides = compute_graph::packed_strides(shape, size);
    let at = (point[0] as i64, point[1] as i64, point[2] as i64, point[3] as i64);
    reveal_with_fuel(loops::element_offset, 5);
    lemma_packed_stride_is_positive(shape, size, 0);
    lemma_packed_stride_is_positive(shape, size, 1);
    lemma_packed_stride_is_positive(shape, size, 2);
    lemma_packed_stride_is_positive(shape, size, 3);
    packed_elements_lie_one_behind_the_other(shape, size, at);
    assert(strides[0] == eltwise::packed_stride(shape, size, 0));
    assert(strides[1] == eltwise::packed_stride(shape, size, 1));
    assert(strides[2] == eltwise::packed_stride(shape, size, 2));
    assert(strides[3] == eltwise::packed_stride(shape, size, 3));
}

proof fn lemma_packed_stride_is_positive(shape: Seq<i64>, size: usize, dim: int)
    requires
        0 <= dim < 4,
    ensures
        0 <= eltwise::packed_stride(shape, size, dim),
    decreases 4 - dim,
{
    if dim < 3 {
        lemma_packed_stride_is_positive(shape, size, dim + 1);
        let stride = eltwise::packed_stride(shape, size, dim + 1);
        let extent = shape[dim + 1] as usize;
        assert(0 <= stride * extent) by (nonlinear_arith)
            requires
                0 <= stride,
                0 <= extent,
        ;
    }
}

/// Whether behind `head` a variable holds, at every point of the loops, the byte at which the element
/// of the point begins in a tensor without gaps, whose elements have `size` bytes.
pub open spec fn name_packed_offsets(
    head: Seq<Statement>,
    shape: Seq<i64>,
    name: Seq<char>,
    size: usize,
) -> bool {
    forall|point: Seq<int>|
        #![trigger loops::values_at(head, point)]
        point.len() == 4 && (forall|d: int| 0 <= d < 4 ==> 0 <= #[trigger] point[d] < shape[d])
            ==> loops::values_at(head, point)[name] == element_number(
            shape,
            (point[0] as i64, point[1] as i64, point[2] as i64, point[3] as i64),
        ) * size
}

proof fn lemma_names_packed_offsets(
    head: Seq<Statement>,
    shape: Seq<i64>,
    strides: Seq<Seq<usize>>,
    t: int,
    size: usize,
)
    requires
        shape.len() == 4,
        strides.len() == 3,
        0 <= t < 3,
        strides[t] == compute_graph::packed_strides(shape, size),
        compute_graph::packable(shape, size),
        forall|point: Seq<int>, t: int|
            point.len() == shape.len() && 0 <= t < strides.len() ==> #[trigger] loops::values_at(
                head,
                point,
            )[workload::tensor_indexes(strides.len() as int)[t]] == loops::element_offset(
                strides[t],
                point,
                shape.len() as int,
            ),
    ensures
        name_packed_offsets(head, shape, workload::tensor_indexes(3)[t], size),
{
    assert forall|point: Seq<int>|
        #![trigger loops::values_at(head, point)]
        point.len() == 4 && (forall|d: int|
            0 <= d < 4 ==> 0 <= #[trigger] point[d] < shape[d]) implies loops::values_at(
        head,
        point,
    )[workload::tensor_indexes(3)[t]] == element_number(
        shape,
        (point[0] as i64, point[1] as i64, point[2] as i64, point[3] as i64),
    ) * size by {
        lemma_packed_offset(shape, size, point);
        assert(loops::values_at(head, point)[workload::tensor_indexes(strides.len() as int)[t]]
            == loops::element_offset(strides[t], point, 4));
    }
}

/// The statements of a kernel, what comes before the innermost, and that one; `names` are what the
/// offsets of the operands and of the result are called.
pub struct AddKernel {
    pub head: Seq<Statement>,
    pub body: Seq<char>,
    pub statements: Seq<Statement>,
    pub names: Seq<Seq<char>>,
}

/// The kernel of an addition loops over the whole shape, and in every iteration puts into the
/// result's element the sum of the two operands' elements with the same number.
pub proof fn an_addition_adds_element_by_element(
    shape: Seq<i64>,
    a_size: usize,
    b_size: usize,
    dest_size: usize,
    ty: TtxTypes,
) -> (result: AddKernel)
    requires
        shape.len() == 4,
        compute_graph::packable(shape, a_size),
        compute_graph::packable(shape, b_size),
        compute_graph::packable(shape, dest_size),
    ensures
        compute_graph::add_source(shape, a_size, b_size, dest_size, ty) == workload::join_lines(
            loops::all_written(result.statements),
        ),
        loops::are_loops(result.head, shape, result.body, result.statements),
        adds(result.body, result.names),
        name_packed_offsets(result.head, shape, result.names[0], a_size),
        name_packed_offsets(result.head, shape, result.names[1], b_size),
        name_packed_offsets(result.head, shape, result.names[2], dest_size),
{
    let strides = seq![
        compute_graph::packed_strides(shape, a_size),
        compute_graph::packed_strides(shape, b_size),
        compute_graph::packed_strides(shape, dest_size),
    ];
    let names = workload::tensor_indexes(3);
    let body = compute_graph::add_line(names, ty);
    let (head, statements) = loops::loops_reach_every_element(shape, strides, body);
    assert(loops::all_written(statements) =~= workload::zip_lines(shape, strides, body));
    lemma_adds(names, ty);
    assert(strides[0] == compute_graph::packed_strides(shape, a_size));
    assert(strides[1] == compute_graph::packed_strides(shape, b_size));
    assert(strides[2] == compute_graph::packed_strides(shape, dest_size));
    lemma_names_packed_offsets(head, shape, strides, 0, a_size);
    lemma_names_packed_offsets(head, shape, strides, 1, b_size);
    lemma_names_packed_offsets(head, shape, strides, 2, dest_size);
    AddKernel { head, body, statements, names }
}

/// Whether a line assigns to an element of `dest` the sum of an element of `a` and one of `b`: a
/// conversion of each stands before it.
pub open spec fn adds(line: Seq<char>, names: Seq<Seq<char>>) -> bool {
    exists|whole: Seq<char>, left: Seq<char>, right: Seq<char>|
        line == #[trigger] sum_line(names, whole, left, right)
}

/// An element of `dest`, set to the sum of an element of `a` and one of `b`.
pub open spec fn sum_line(
    names: Seq<Seq<char>>,
    whole: Seq<char>,
    left: Seq<char>,
    right: Seq<char>,
) -> Seq<char> {
    "dest["@ + names[2] + "] = "@ + whole + "({ "@ + left + "(a["@ + names[0] + "])) } + { "@
        + right + "(b["@ + names[1] + "])) })"@
}

proof fn lemma_adds(names: Seq<Seq<char>>, ty: TtxTypes)
    ensures
        adds(compute_graph::add_line(names, ty), names),
{
    let convert = compute_graph::convert_source(ty, ty) + "("@ + compute_graph::FROM_SOURCE@;
    let line = compute_graph::add_line(names, ty);
    assert(line =~= sum_line(names, compute_graph::TO_SOURCE@, convert, convert));
}

/// Whether a type is one of floats.
pub open spec fn is_float(ty: TtxTypes) -> bool {
    ty is F64 || ty is F32
}

/// How many bytes a value of a type takes.
pub open spec fn width(ty: TtxTypes) -> int {
    match ty {
        TtxTypes::F64 => 8,
        TtxTypes::F32 => 4,
        TtxTypes::I64 => 8,
        TtxTypes::I32 => 4,
        TtxTypes::I16 => 2,
        TtxTypes::I8 => 1,
    }
}

/// Two types meet in a float where one of them is a float, and of two floats or two integers in the
/// wider.
pub proof fn floats_and_wide_types_prevail(a: TtxTypes, b: TtxTypes)
    ensures
        is_float(compute_graph::common_type(a, b)) <==> is_float(a) || is_float(b),
        is_float(a) == is_float(b) ==> width(compute_graph::common_type(a, b)) >= width(a) && width(
            compute_graph::common_type(a, b),
        ) >= width(b),
        compute_graph::common_type(a, b) == a || compute_graph::common_type(a, b) == b,
{
}

/// The name of a type in a kernel says whether it is a float, and how many bits a value takes.
pub proof fn names_of_types_say_what_they_are(ty: TtxTypes)
    ensures
        ({
            let name = compute_graph::element_name(ty);
            &&& name.len() >= 2
            &&& name[0] == if is_float(ty) {
                'f'
            } else {
                'i'
            }
            &&& texts::number(name.skip(1), 10) == 8 * width(ty)
        }),
{
    reveal_strlit("f64");
    reveal_strlit("f32");
    reveal_strlit("i8");
    reveal_strlit("i16");
    reveal_strlit("i32");
    reveal_strlit("i64");
    reveal_with_fuel(texts::number, 4);
    let name = compute_graph::element_name(ty);
    let digits = name.skip(1);
    if digits.len() == 2 {
        assert(digits.drop_last().len() == 1);
        assert(digits.drop_last()[0] == name[1]);
        assert(digits.drop_last().drop_last() =~= seq![]);
        assert(digits.last() == name[2]);
    } else {
        assert(digits.drop_last() =~= seq![]);
        assert(digits.last() == name[1]);
    }
}

/// A conversion names the type that it converts to, and leaves alone what has that type already.
pub proof fn conversions_name_their_target(from: TtxTypes, to: TtxTypes)
    ensures
        from != to ==> compute_graph::convert_source(from, to) == "(|input| input as "@
            + compute_graph::element_name(to) + ")"@,
        from == to ==> compute_graph::convert_source(from, to) == "(|input| input)"@,
{
    reveal_strlit("(|input| ");
    reveal_strlit("input");
    reveal_strlit("input as ");
    reveal_strlit(")");
    reveal_strlit("(|input| input as ");
    reveal_strlit("(|input| input)");
    if from == to {
        assert(compute_graph::convert_source(from, to) =~= "(|input| input)"@);
    } else {
        assert(compute_graph::convert_source(from, to) =~= "(|input| input as "@
            + compute_graph::element_name(to) + ")"@);
    }
}

/// A tensor's type and the type that a kernel computes with for it: the name says how many bits, and
/// tensors of eight, sixteen, thirty-two or sixty-four bit integers are computed with as such.
pub proof fn integers_keep_their_width(ty: GgmlType)
    ensures
        ty is I8 ==> compute_graph::natural_type_of(ty) == Some(TtxTypes::I8),
        ty is I16 ==> compute_graph::natural_type_of(ty) == Some(TtxTypes::I16),
        ty is I32 ==> compute_graph::natural_type_of(ty) == Some(TtxTypes::I32),
        ty is I64 ==> compute_graph::natural_type_of(ty) == Some(TtxTypes::I64),
        ty is F64 ==> compute_graph::natural_type_of(ty) == Some(TtxTypes::F64),
        ty is F32 ==> compute_graph::natural_type_of(ty) == Some(TtxTypes::F32),
        compute_graph::natural_type_of(ty) is Some && !(ty is F64) ==> compute_graph::stored_as(
            compute_graph::natural_type_of(ty)->0,
        ) == ty || compute_graph::natural_type_of(ty) == Some(TtxTypes::F32),
{
}

/// The nodes that are computed are exactly the additions of a graph, each once and in order.
pub proof fn every_addition_is_computed_in_order(nodes: Seq<Option<GgmlOp>>, count: int)
    requires
        0 <= count <= nodes.len() <= usize::MAX,
    ensures
        ({
            let computed = compute_graph::computed_nodes(nodes, count);
            &&& forall|k: int|
                0 <= k < computed.len() ==> {
                    &&& (#[trigger] computed[k]) < count
                    &&& nodes[computed[k] as int] matches Some(op) && (op is Add || op is Add1)
                }
            &&& forall|k: int, l: int|
                0 <= k < l < computed.len() ==> #[trigger] computed[k] < #[trigger] computed[l]
            &&& forall|i: int|
                0 <= i < count && (nodes[i] matches Some(op) && (op is Add || op is Add1))
                    ==> computed.contains(#[trigger] (i as usize))
        }),
    decreases count,
{
    if count > 0 {
        every_addition_is_computed_in_order(nodes, count - 1);
        let before = compute_graph::computed_nodes(nodes, count - 1);
        let computed = compute_graph::computed_nodes(nodes, count);
        let last = (count - 1) as usize;
        assert forall|i: int|
            0 <= i < count && (nodes[i] matches Some(op) && (op is Add || op is Add1))
                implies computed.contains(#[trigger] (i as usize)) by {
            if i == count - 1 {
                assert(computed[computed.len() - 1] == last);
            } else {
                assert(before.contains(i as usize));
                let k = choose|k: int| 0 <= k < before.len() && before[k] == i as usize;
                assert(computed[k] == i as usize);
            }
        }
    }
}

/// All offsets of a walk can be told exactly where that of every position can.
pub proof fn a_walk_can_be_told_where_its_offsets_can(shape: Seq<i64>, strides: Seq<usize>)
    ensures
        walk::walkable(shape, strides) <==> forall|at: Position| #[trigger]
            walk::in_shape(shape, at) ==> walk::offset_at(strides, at) <= i64::MAX
                && walk::offset_at(strides, at) <= usize::MAX,
{
    if walk::walkable(shape, strides) {
        assert forall|at: Position| #[trigger] walk::in_shape(shape, at) implies walk::offset_at(
            strides,
            at,
        ) <= i64::MAX && walk::offset_at(strides, at) <= usize::MAX by {
            walk::offsets_are_within_reach(shape, strides, at);
        }
    } else {
        let corner = (
            (shape[0] - 1) as i64,
            (shape[1] - 1) as i64,
            (shape[2] - 1) as i64,
            (shape[3] - 1) as i64,
        );
        assert(walk::in_shape(shape, corner));
        assert(walk::offset_at(strides, corner) == walk::reach(shape, strides));
    }
}

/// Tensors can be broadcast exactly if along each dimension any two have the same size, or one of
/// them has only one element there.
pub proof fn tensors_are_broadcast_where_they_agree(tensors: Seq<&GgmlTensor>)
    requires
        forall|t: int, dim: int|
            0 <= t < tensors.len() && 0 <= dim < 4 ==> #[trigger] tensors[t].ne@[dim] >= 1,
    ensures
        eltwise::broadcastable(tensors) <==> forall|t: int, u: int, dim: int|
            #![trigger tensors[t].ne@[dim], tensors[u].ne@[dim]]
            0 <= t < tensors.len() && 0 <= u < tensors.len() && 0 <= dim < 4 ==> {
                ||| tensors[t].ne@[dim] == tensors[u].ne@[dim]
                ||| tensors[t].ne@[dim] == 1
                ||| tensors[u].ne@[dim] == 1
            },
{
    let agree = forall|t: int, u: int, dim: int|
        #![trigger tensors[t].ne@[dim], tensors[u].ne@[dim]]
        0 <= t < tensors.len() && 0 <= u < tensors.len() && 0 <= dim < 4 ==> {
            ||| tensors[t].ne@[dim] == tensors[u].ne@[dim]
            ||| tensors[t].ne@[dim] == 1
            ||| tensors[u].ne@[dim] == 1
        };
    if agree {
        assert forall|t: int, dim: int| 0 <= t < tensors.len() && 0 <= dim < 4 implies {
            ||| (#[trigger] tensors[t].ne@[dim]) == eltwise::common_shape(tensors)[dim]
            ||| tensors[t].ne@[dim] == 1
        } by {
            the_common_shape_is_the_least_that_holds_all(tensors, dim, tensors.len() as int);
            let size = eltwise::common_shape(tensors)[dim];
            if size != 1 {
                let u = choose|u: int|
                    0 <= u < tensors.len() && (#[trigger] tensors[u]).ne@[dim] == size;
                assert(tensors[u].ne@[dim] == size);
            } else {
                assert(tensors[t].ne@[dim] <= size);
            }
        }
    }
}

/// As many pieces are made as are filled, and one more for what is left, which may be nothing. All
/// have room for as many elements, and where there are none a piece is zero.
pub proof fn pieces_are_as_many_as_it_takes(elements: Seq<Seq<u8>>, size: int, count: int, j: int)
    requires
        0 <= size,
        0 < count,
        forall|i: int| 0 <= i < elements.len() ==> (#[trigger] elements[i]).len() == size,
    ensures
        ({
            let pieces = eltwise::buffers_of(elements, size, count);
            &&& pieces.len() == elements.len() as int / count + 1
            &&& 0 <= j < pieces.len() ==> pieces[j].len() == count * size
            &&& forall|place: int|
                (elements.len() as int % count) * size <= place < count * size ==> #[trigger]
                    pieces.last()[place] == 0
        }),
    decreases elements.len(),
{
    let pieces = eltwise::buffers_of(elements, size, count);
    let n = elements.len() as int;
    if n < count {
        vstd::arithmetic::div_mod::lemma_fundamental_div_mod_converse(n, count, 0, n);
        lemma_joined(elements, size);
        assert(n * size <= count * size) by (nonlinear_arith)
            requires
                n < count,
                0 <= size,
        ;
    } else {
        let first = elements.take(count);
        let rest = elements.skip(count);
        lemma_joined(first, size);
        assert forall|i: int| 0 <= i < rest.len() implies (#[trigger] rest[i]).len() == size by {
            assert(rest[i] == elements[i + count]);
        }
        pieces_are_as_many_as_it_takes(rest, size, count, j - 1);
        vstd::arithmetic::div_mod::lemma_div_plus_one(n - count, count);
        vstd::arithmetic::div_mod::lemma_mod_add_multiples_vanish(n - count, count);
        let others = eltwise::buffers_of(rest, size, count);
        assert(pieces.last() == others.last());
        if 0 < j < pieces.len() {
            assert(pieces[j] == others[j - 1]);
        }
    }
}

proof fn lemma_joined(elements: Seq<Seq<u8>>, size: int)
    requires
        0 <= size,
        forall|i: int| 0 <= i < elements.len() ==> (#[trigger] elements[i]).len() == size,
    ensures
        eltwise::joined(elements).len() == elements.len() * size,
    decreases elements.len(),
{
    let n = elements.len() as int;
    if n > 0 {
        let before = elements.drop_last();
        assert forall|i: int| 0 <= i < before.len() implies (#[trigger] before[i]).len() == size by {
            assert(before[i] == elements[i]);
        }
        lemma_joined(before, size);
        assert((n - 1) * size + size == n * size) by (nonlinear_arith);
    } else {
        assert(n * size == 0) by (nonlinear_arith)
            requires
                n == 0,
        ;
    }
}

/// A piece holds first the elements of the first operand and then those of the second, each at the
/// place of the position's number.
pub proof fn pieces_hold_both_operands(
    pieces: eltwise::Pieces,
    a: &GgmlTensor,
    b: &GgmlTensor,
    a_size: usize,
    b_size: usize,
    dest_size: usize,
    count: int,
    at: Position,
)
    requires
        eltwise::splittable(a, b, a_size, b_size, dest_size),
        compute_graph::pieces_hold(pieces, a, b, a_size, b_size, count),
        0 < count,
        walk::in_shape(eltwise::common_shape(seq![a, b]), at),
    ensures
        ({
            let k = element_number(eltwise::common_shape(seq![a, b]), at);
            let a_place = walk::offset_at(a.nb@, own_position(a, at));
            let b_place = walk::offset_at(b.nb@, own_position(b, at));
            &&& 0 <= k / count < pieces.buffers@.len()
            &&& pieces.buffers@[k / count].0@.subrange(
                (k % count) * a_size,
                (k % count) * a_size + a_size,
            ) == a.data@.subrange(a_place, a_place + a_size)
            &&& pieces.buffers@[k / count].1@.subrange(
                (k % count) * b_size,
                (k % count) * b_size + b_size,
            ) == b.data@.subrange(b_place, b_place + b_size)
        }),
{
    let tensors = seq![a, b];
    assert(tensors[0] == a && tensors[1] == b);
    pieces_hold_the_elements_in_order(tensors, 0, a_size, count, at);
    pieces_hold_the_elements_in_order(tensors, 1, b_size, count, at);
}

/// What can be added has one type, is broadcast, and leaves room for at least one element in a piece.
pub proof fn what_can_be_added_has_one_type(
    a: &GgmlTensor,
    b: &GgmlTensor,
    dest: GgmlType,
    a_size: usize,
    b_size: usize,
    dest_size: usize,
)
    requires
        compute_graph::can_be_added(a, b, dest, a_size, b_size, dest_size),
    ensures
        a.type_ == b.type_ && b.type_ == dest,
        eltwise::piece_count(a_size, b_size, dest_size) >= 1,
        compute_graph::output_type(a.type_, b.type_) is Some,
        compute_graph::stored_as(compute_graph::output_type(a.type_, b.type_)->0) == dest,
        eltwise::broadcastable(seq![a, b]),
{
    let count = eltwise::piece_count(a_size, b_size, dest_size);
    let total = a_size + b_size + dest_size;
    compute_graph::additions_have_one_type(a.type_, b.type_, dest);
    a_piece_holds_as_many_elements_as_fit(a_size, b_size, dest_size);
    assert(count >= 1) by (nonlinear_arith)
        requires
            1024 < (count + 1) * total,
            total <= 1024,
            0 <= count,
    ;
}

} // verus!
