//! Element-wise operations: tensors of different shapes side by side, and their elements in pieces
//! that a core can take.

use vstd::prelude::*;
use vstd::slice::slice_subrange;

use crate::ggml::walk;
use crate::ggml::GgmlTensor;

verus! {

pub open spec fn larger(a: int, b: int) -> int {
    if a >= b {
        a
    } else {
        b
    }
}

/// The largest size that the first `count` tensors have along a dimension, at least one.
pub open spec fn widest(tensors: Seq<&GgmlTensor>, dim: int, count: int) -> int
    decreases count,
{
    if count <= 0 {
        1
    } else {
        larger(widest(tensors, dim, count - 1), tensors[count - 1].ne@[dim] as int)
    }
}

/// The shape that tensors are broadcast to.
pub open spec fn common_shape(tensors: Seq<&GgmlTensor>) -> Seq<i64> {
    Seq::new(4, |dim: int| widest(tensors, dim, tensors.len() as int) as i64)
}

/// Whether tensors can be broadcast to one shape: along each dimension a tensor has the common
/// size, or the size one.
pub open spec fn broadcastable(tensors: Seq<&GgmlTensor>) -> bool {
    forall|t: int, dim: int|
        0 <= t < tensors.len() && 0 <= dim < 4 ==> {
            ||| (#[trigger] tensors[t].ne@[dim]) == common_shape(tensors)[dim]
            ||| tensors[t].ne@[dim] == 1
        }
}

/// The strides of a tensor in the common shape: none along a dimension that it is repeated along.
pub open spec fn common_strides(tensor: &GgmlTensor, shape: Seq<i64>) -> Seq<usize> {
    Seq::new(
        4,
        |dim: int|
            if tensor.ne@[dim] == 1 && shape[dim] > 1 {
                0
            } else {
                tensor.nb@[dim]
            },
    )
}

proof fn lemma_widest(tensors: Seq<&GgmlTensor>, dim: int, count: int)
    requires
        count <= tensors.len(),
    ensures
        1 <= widest(tensors, dim, count) <= i64::MAX,
    decreases count,
{
    if count > 0 {
        lemma_widest(tensors, dim, count - 1);
    }
}

fn common_size(tensors: &[&GgmlTensor], dim: usize) -> (size: i64)
    requires
        dim < 4,
    ensures
        size == widest(tensors@, dim as int, tensors@.len() as int),
{
    let mut size: i64 = 1;
    for t in 0..tensors.len()
        invariant
            dim < 4,
            size == widest(tensors@, dim as int, t as int),
    {
        let tensor: &GgmlTensor = tensors[t];
        if tensor.ne[dim] > size {
            size = tensor.ne[dim];
        }
    }
    size
}

/// Whether tensors can be broadcast to one shape.
pub fn can_broadcast(tensors: &[&GgmlTensor]) -> (yes: bool)
    ensures
        yes == broadcastable(tensors@),
{
    let shape = broadcast_shape(tensors);
    for t in 0..tensors.len()
        invariant
            shape@ == common_shape(tensors@),
            forall|u: int, dim: int|
                0 <= u < t && 0 <= dim < 4 ==> (#[trigger] tensors@[u].ne@[dim]) == shape@[dim]
                    || tensors@[u].ne@[dim] == 1,
    {
        let tensor: &GgmlTensor = tensors[t];
        for dim in 0..4usize
            invariant
                t < tensors@.len(),
                tensor == tensors@[t as int],
                shape@ == common_shape(tensors@),
                forall|d: int|
                    0 <= d < dim ==> (#[trigger] tensor.ne@[d]) == shape@[d] || tensor.ne@[d] == 1,
        {
            if tensor.ne[dim] != shape[dim] && tensor.ne[dim] != 1 {
                assert(tensors@[t as int].ne@[dim as int] != common_shape(tensors@)[dim as int]);
                return false;
            }
        }
    }
    true
}

fn broadcast_shape(tensors: &[&GgmlTensor]) -> (shape: [i64; 4])
    ensures
        shape@ == common_shape(tensors@),
{
    let shape: [i64; 4] = [
        common_size(tensors, 0),
        common_size(tensors, 1),
        common_size(tensors, 2),
        common_size(tensors, 3),
    ];
    assert(shape@ =~= common_shape(tensors@));
    shape
}

fn broadcast_strides(tensor: &GgmlTensor, shape: &[i64; 4]) -> (strides: [usize; 4])
    ensures
        strides@ == common_strides(tensor, shape@),
{
    let mut strides: [usize; 4] = tensor.nb;
    for dim in 0..4usize
        invariant
            forall|d: int|
                0 <= d < dim ==> #[trigger] strides@[d] == common_strides(tensor, shape@)[d],
            forall|d: int| dim <= d < 4 ==> #[trigger] strides@[d] == tensor.nb@[d],
    {
        if tensor.ne[dim] == 1 && shape[dim] > 1 {
            strides[dim] = 0;
        }
    }
    assert(strides@ =~= common_strides(tensor, shape@));
    strides
}

/// The shape that tensors are broadcast to, and their strides in it.
pub fn broadcast_tensors(tensors: &[&GgmlTensor]) -> (result: ([i64; 4], Vec<[usize; 4]>))
    requires
        broadcastable(tensors@),
    ensures
        result.0@ == common_shape(tensors@),
        result.1@.len() == tensors@.len(),
        forall|t: int|
            0 <= t < tensors@.len() ==> (#[trigger] result.1@[t])@ == common_strides(
                tensors@[t],
                common_shape(tensors@),
            ),
{
    let shape = broadcast_shape(tensors);
    let mut strides: Vec<[usize; 4]> = Vec::new();
    for t in 0..tensors.len()
        invariant
            shape@ == common_shape(tensors@),
            strides@.len() == t,
            forall|u: int|
                0 <= u < t ==> (#[trigger] strides@[u])@ == common_strides(
                    tensors@[u],
                    common_shape(tensors@),
                ),
    {
        strides.push(broadcast_strides(tensors[t], &shape));
    }
    (shape, strides)
}

/// A walk over broadcast tensors.
pub struct Zip {
    pub shape: [i64; 4],
    pub strides: Vec<[usize; 4]>,
    /// For each tensor the offsets of its elements, in the order of the walk.
    pub offsets: Vec<Vec<usize>>,
}

/// Whether the offsets of all tensors in the common shape can be told.
pub open spec fn zippable(tensors: Seq<&GgmlTensor>) -> bool {
    forall|t: int|
        0 <= t < tensors.len() ==> walk::walkable(
            common_shape(tensors),
            common_strides(#[trigger] tensors[t], common_shape(tensors)),
        )
}

/// The offsets of a tensor's elements in a walk over the common shape.
pub open spec fn zip_offsets(tensors: Seq<&GgmlTensor>, t: int) -> Seq<usize> {
    walk::offsets_of(common_shape(tensors), common_strides(tensors[t], common_shape(tensors)))
}

/// Walks over tensors side by side, each broadcast to the common shape.
pub fn iterate_zip(tensors: &[&GgmlTensor]) -> (zip: Zip)
    requires
        broadcastable(tensors@),
        zippable(tensors@),
    ensures
        zip.shape@ == common_shape(tensors@),
        zip.strides@.len() == tensors@.len(),
        zip.offsets@.len() == tensors@.len(),
        forall|t: int|
            0 <= t < tensors@.len() ==> (#[trigger] zip.strides@[t])@ == common_strides(
                tensors@[t],
                common_shape(tensors@),
            ),
        forall|t: int|
            0 <= t < tensors@.len() ==> (#[trigger] zip.offsets@[t])@ == zip_offsets(tensors@, t),
{
    let (shape, strides) = broadcast_tensors(tensors);
    let mut offsets: Vec<Vec<usize>> = Vec::new();
    for t in 0..tensors.len()
        invariant
            zippable(tensors@),
            shape@ == common_shape(tensors@),
            strides@.len() == tensors@.len(),
            forall|u: int|
                0 <= u < tensors@.len() ==> (#[trigger] strides@[u])@ == common_strides(
                    tensors@[u],
                    common_shape(tensors@),
                ),
            offsets@.len() == t,
            forall|u: int| 0 <= u < t ==> (#[trigger] offsets@[u])@ == zip_offsets(tensors@, u),
    {
        assert(strides@[t as int]@ == common_strides(tensors@[t as int], common_shape(tensors@)));
        offsets.push(walk::walk_offsets(&shape, &strides[t]));
    }
    Zip { shape, strides, offsets }
}

/// The elements of `size` bytes at these offsets.
pub open spec fn elements(data: Seq<u8>, offsets: Seq<usize>, size: int) -> Seq<Seq<u8>> {
    offsets.map_values(|offset: usize| data.subrange(offset as int, offset + size))
}

/// Elements, one behind the other.
pub open spec fn joined(elements: Seq<Seq<u8>>) -> Seq<u8>
    decreases elements.len(),
{
    if elements.len() == 0 {
        seq![]
    } else {
        joined(elements.drop_last()) + elements.last()
    }
}

/// Elements in a buffer of `capacity` bytes; behind them it is zero.
pub open spec fn buffered(elements: Seq<Seq<u8>>, capacity: int) -> Seq<u8> {
    let bytes = joined(elements);
    bytes + Seq::new((capacity - bytes.len()) as nat, |i: int| 0u8)
}

/// Elements of `size` bytes in buffers that hold `count` of them. The last buffer is never full: it
/// holds what is left, which may be nothing.
pub open spec fn buffers_of(elements: Seq<Seq<u8>>, size: int, count: int) -> Seq<Seq<u8>>
    decreases elements.len(),
    when count > 0
{
    if elements.len() < count {
        seq![buffered(elements, count * size)]
    } else {
        seq![buffered(elements.take(count), count * size)] + buffers_of(
            elements.skip(count),
            size,
            count,
        )
    }
}

/// Whether the elements at these offsets are in `data`.
pub open spec fn in_data(data: Seq<u8>, offsets: Seq<usize>, size: int) -> bool {
    forall|k: int| 0 <= k < offsets.len() ==> #[trigger] offsets[k] + size <= data.len()
}

proof fn lemma_joined_len(elements: Seq<Seq<u8>>, size: int)
    requires
        0 <= size,
        forall|k: int| 0 <= k < elements.len() ==> (#[trigger] elements[k]).len() == size,
    ensures
        joined(elements).len() == elements.len() * size,
    decreases elements.len(),
{
    if elements.len() > 0 {
        lemma_joined_len(elements.drop_last(), size);
        let n = elements.len() as int;
        assert((n - 1) * size + size == n * size) by (nonlinear_arith);
    } else {
        assert(0 * size == 0) by (nonlinear_arith);
    }
}

/// Puts the elements of `size` bytes at these offsets into buffers that hold `count` of them.
fn split(data: &Vec<u8>, offsets: &Vec<usize>, size: usize, count: usize) -> (buffers: Vec<Vec<u8>>)
    requires
        count > 0,
        count * size <= usize::MAX,
        in_data(data@, offsets@, size as int),
    ensures
        buffers@.len() == buffers_of(
            elements(data@, offsets@, size as int),
            size as int,
            count as int,
        ).len(),
        forall|j: int|
            0 <= j < buffers@.len() ==> (#[trigger] buffers@[j])@ == buffers_of(
                elements(data@, offsets@, size as int),
                size as int,
                count as int,
            )[j],
{
    let capacity: usize = count * size;
    let total: usize = data.len();
    let ghost all = elements(data@, offsets@, size as int);
    let ghost wanted = buffers_of(all, size as int, count as int);
    let mut buffers: Vec<Vec<u8>> = Vec::new();
    let mut buffer: Vec<u8> = Vec::new();
    let mut running_count: usize = 0;
    let ghost mut base: int = 0;
    assert(all.skip(0) =~= all);
    assert(all.subrange(0, 0) =~= seq![]);
    for k in 0..offsets.len()
        invariant
            count > 0,
            capacity == count * size,
            total == data@.len(),
            in_data(data@, offsets@, size as int),
            all == elements(data@, offsets@, size as int),
            wanted == buffers_of(all, size as int, count as int),
            0 <= base <= k,
            running_count == k - base,
            running_count < count,
            buffer@ == joined(all.subrange(base, k as int)),
            buffers@.len() + buffers_of(all.skip(base), size as int, count as int).len()
                == wanted.len(),
            forall|j: int| 0 <= j < buffers@.len() ==> (#[trigger] buffers@[j])@ == wanted[j],
            forall|j: int|
                buffers@.len() <= j < wanted.len() ==> #[trigger] wanted[j] == buffers_of(
                    all.skip(base),
                    size as int,
                    count as int,
                )[j - buffers@.len()],
    {
        let offset: usize = offsets[k];
        assert(offsets@[k as int] + size <= total);
        let element = slice_subrange(data.as_slice(), offset, offset + size);
        assert(all[k as int] =~= element@);
        buffer.extend_from_slice(element);
        assert(all.subrange(base, k + 1).drop_last() =~= all.subrange(base, k as int));
        assert(buffer@ =~= joined(all.subrange(base, k + 1)));
        running_count = running_count + 1;
        if running_count >= count {
            let ghost rest = buffers_of(all.skip(base), size as int, count as int);
            let ghost later = buffers_of(all.skip(base + count), size as int, count as int);
            proof {
                assert(all.skip(base).take(count as int) =~= all.subrange(base, k + 1));
                assert(all.skip(base).skip(count as int) =~= all.skip(base + count));
                lemma_joined_len(all.subrange(base, k + 1), size as int);
                assert(buffer@ =~= buffered(all.subrange(base, k + 1), capacity as int));
                assert(rest == seq![buffer@] + later);
            }
            let ghost done = buffers@;
            let mut full: Vec<u8> = Vec::new();
            std::mem::swap(&mut full, &mut buffer);
            let ghost bytes = full@;
            buffers.push(full);
            running_count = 0;
            proof {
                assert(wanted[done.len() as int] == rest[0]);
                assert forall|j: int| 0 <= j < buffers@.len() implies (#[trigger] buffers@[j])@
                    == wanted[j] by {
                    if j < done.len() {
                        assert(buffers@[j] == done[j]);
                    }
                }
                assert forall|j: int| buffers@.len() <= j < wanted.len() implies
                    #[trigger] wanted[j] == later[j - buffers@.len()] by {
                    assert(wanted[j] == rest[j - done.len()]);
                }
                base = base + count;
                assert(all.subrange(base, k + 1) =~= seq![]);
            }
        }
    }
    proof {
        let left = all.skip(base);
        assert(left =~= all.subrange(base, all.len() as int));
        lemma_joined_len(left, size as int);
        assert(left.len() * size <= count * size) by (nonlinear_arith)
            requires
                left.len() < count,
                0 <= size,
        ;
        assert(buffers_of(left, size as int, count as int) == seq![
            buffered(left, capacity as int),
        ]);
    }
    let ghost bytes = buffer@;
    buffer.resize(capacity, 0);
    assert(buffer@ =~= buffered(all.skip(base), capacity as int));
    let ghost done = buffers@;
    buffers.push(buffer);
    proof {
        assert(wanted[done.len() as int] == buffer@);
        assert forall|j: int| 0 <= j < buffers@.len() implies (#[trigger] buffers@[j])@
            == wanted[j] by {
            if j < done.len() {
                assert(buffers@[j] == done[j]);
            }
        }
    }
    buffers
}

/// How many bytes of a core's memory one piece of an operation takes, of its operands and its result
/// together.
pub const PIECE_SIZE: usize = 1024;

/// The operands of an element-wise operation in pieces.
pub struct Pieces {
    /// The shape of the result.
    pub shape: [i64; 4],
    /// How many elements a piece holds.
    pub elem_count: usize,
    /// The bytes of the two operands, for each piece.
    pub buffers: Vec<(Vec<u8>, Vec<u8>)>,
}

fn is_in_data(data: &Vec<u8>, offsets: &Vec<usize>, size: usize) -> (yes: bool)
    ensures
        yes == in_data(data@, offsets@, size as int),
{
    for k in 0..offsets.len()
        invariant
            forall|j: int| 0 <= j < k ==> #[trigger] offsets@[j] + size <= data@.len(),
    {
        if offsets[k] > data.len() || data.len() - offsets[k] < size {
            return false;
        }
    }
    true
}

/// Whether two tensors can be taken apart into pieces, each of at least one element.
pub open spec fn splittable(
    a: &GgmlTensor,
    b: &GgmlTensor,
    a_size: usize,
    b_size: usize,
    dest_size: usize,
) -> bool {
    let tensors = seq![a, b];
    &&& 0 < a_size + b_size + dest_size <= PIECE_SIZE
    &&& broadcastable(tensors)
    &&& zippable(tensors)
    &&& in_data(a.data@, zip_offsets(tensors, 0), a_size as int)
    &&& in_data(b.data@, zip_offsets(tensors, 1), b_size as int)
}

/// Whether two tensors can be taken apart into pieces, each of at least one element.
pub fn can_split(
    a: &GgmlTensor,
    b: &GgmlTensor,
    a_size: usize,
    b_size: usize,
    dest_size: usize,
) -> (yes: bool)
    ensures
        yes == splittable(a, b, a_size, b_size, dest_size),
{
    if a_size > PIECE_SIZE || b_size > PIECE_SIZE || dest_size > PIECE_SIZE {
        return false;
    }
    let total: usize = a_size + b_size + dest_size;
    if total == 0 || total > PIECE_SIZE {
        return false;
    }
    let tensors: [&GgmlTensor; 2] = [a, b];
    let ghost pair = seq![a, b];
    assert(tensors@ =~= pair);
    if !can_broadcast(tensors.as_slice()) {
        return false;
    }
    let (shape, strides) = broadcast_tensors(tensors.as_slice());
    proof {
        assert(strides@[0]@ == common_strides(pair[0], common_shape(pair)));
        assert(strides@[1]@ == common_strides(pair[1], common_shape(pair)));
    }
    if !walk::is_walkable(&shape, &strides[0]) || !walk::is_walkable(&shape, &strides[1]) {
        return false;
    }
    assert(zippable(pair));
    let zip = iterate_zip(tensors.as_slice());
    assert(zip.offsets@[0]@ == zip_offsets(pair, 0));
    assert(zip.offsets@[1]@ == zip_offsets(pair, 1));
    is_in_data(&a.data, &zip.offsets[0], a_size) && is_in_data(&b.data, &zip.offsets[1], b_size)
}

/// How many elements a piece holds.
pub open spec fn piece_count(a_size: usize, b_size: usize, dest_size: usize) -> int {
    PIECE_SIZE as int / (a_size + b_size + dest_size)
}

/// The bytes of the operand `t`, in pieces of `count` elements.
pub open spec fn piece_buffers(
    tensors: Seq<&GgmlTensor>,
    t: int,
    size: usize,
    count: int,
) -> Seq<Seq<u8>> {
    buffers_of(elements(tensors[t].data@, zip_offsets(tensors, t), size as int), size as int, count)
}

proof fn lemma_as_many_buffers(a: Seq<Seq<u8>>, b: Seq<Seq<u8>>, p: int, q: int, count: int)
    requires
        a.len() == b.len(),
        count > 0,
    ensures
        buffers_of(a, p, count).len() == buffers_of(b, q, count).len(),
    decreases a.len(),
{
    if a.len() >= count {
        lemma_as_many_buffers(a.skip(count), b.skip(count), p, q, count);
    }
}

/// Takes the operands of an element-wise operation apart into pieces of about a kilobyte. The sizes
/// are those of an element of each operand and of the result.
pub fn eltwise_split(
    a: &GgmlTensor,
    b: &GgmlTensor,
    a_size: usize,
    b_size: usize,
    dest_size: usize,
) -> (pieces: Pieces)
    requires
        splittable(a, b, a_size, b_size, dest_size),
    ensures
        pieces.shape@ == common_shape(seq![a, b]),
        pieces.elem_count == piece_count(a_size, b_size, dest_size),
        pieces.buffers@.len() == piece_buffers(
            seq![a, b],
            0,
            a_size,
            piece_count(a_size, b_size, dest_size),
        ).len(),
        forall|j: int|
            0 <= j < pieces.buffers@.len() ==> {
                &&& (#[trigger] pieces.buffers@[j]).0@ == piece_buffers(
                    seq![a, b],
                    0,
                    a_size,
                    piece_count(a_size, b_size, dest_size),
                )[j]
                &&& pieces.buffers@[j].1@ == piece_buffers(
                    seq![a, b],
                    1,
                    b_size,
                    piece_count(a_size, b_size, dest_size),
                )[j]
            },
{
    let total: usize = a_size + b_size + dest_size;
    let elem_count: usize = PIECE_SIZE / total;
    proof {
        vstd::arithmetic::div_mod::lemma_fundamental_div_mod(PIECE_SIZE as int, total as int);
        vstd::arithmetic::div_mod::lemma_mod_bound(PIECE_SIZE as int, total as int);
        let count = elem_count as int;
        assert(count > 0) by (nonlinear_arith)
            requires
                PIECE_SIZE == total * count + PIECE_SIZE % total,
                PIECE_SIZE % total < total,
                total <= PIECE_SIZE,
                0 <= count,
        ;
        assert(count * a_size <= PIECE_SIZE && count * b_size <= PIECE_SIZE) by (nonlinear_arith)
            requires
                PIECE_SIZE == total * count + PIECE_SIZE % total,
                0 <= PIECE_SIZE % total,
                total == a_size + b_size + dest_size,
                0 <= count,
        ;
    }
    let tensors: [&GgmlTensor; 2] = [a, b];
    assert(tensors@ =~= seq![a, b]);
    let zip = iterate_zip(tensors.as_slice());
    assert(zip.offsets@[0]@ == zip_offsets(seq![a, b], 0));
    assert(zip.offsets@[1]@ == zip_offsets(seq![a, b], 1));
    let a_buffers = split(&a.data, &zip.offsets[0], a_size, elem_count);
    let b_buffers = split(&b.data, &zip.offsets[1], b_size, elem_count);
    proof {
        lemma_as_many_buffers(
            elements(a.data@, zip.offsets@[0]@, a_size as int),
            elements(b.data@, zip.offsets@[1]@, b_size as int),
            a_size as int,
            b_size as int,
            elem_count as int,
        );
    }
    let buffers = pair_up(a_buffers, b_buffers);
    Pieces { shape: zip.shape, elem_count, buffers }
}

/// The buffers of two lists, pair by pair.
fn pair_up(a: Vec<Vec<u8>>, b: Vec<Vec<u8>>) -> (pairs: Vec<(Vec<u8>, Vec<u8>)>)
    requires
        a@.len() == b@.len(),
    ensures
        pairs@.len() == a@.len(),
        forall|j: int|
            0 <= j < pairs@.len() ==> (#[trigger] pairs@[j]).0@ == a@[j]@ && pairs@[j].1@
                == b@[j]@,
{
    let mut pairs: Vec<(Vec<u8>, Vec<u8>)> = Vec::new();
    for j in 0..a.len()
        invariant
            a@.len() == b@.len(),
            pairs@.len() == j,
            forall|i: int|
                0 <= i < j ==> (#[trigger] pairs@[i]).0@ == a@[i]@ && pairs@[i].1@ == b@[i]@,
    {
        pairs.push(
            (
                crate::kernel::copy_bytes(a[j].as_slice()),
                crate::kernel::copy_bytes(b[j].as_slice()),
            ),
        );
    }
    pairs
}

/// The stride along a dimension of a tensor without gaps. A negative extent counts as the unsigned
/// number with its bits.
pub open spec fn packed_stride(shape: Seq<i64>, type_size: usize, dim: int) -> int
    decreases 4 - dim,
{
    if dim >= 3 {
        type_size as int
    } else {
        packed_stride(shape, type_size, dim + 1) * (shape[dim + 1] as usize)
    }
}

/// The strides of a tensor without gaps, the last dimension being the closest.
pub fn default_strides_for_shape(shape: [i64; 4], type_size: usize) -> (strides: [usize; 4])
    requires
        forall|dim: int|
            0 <= dim < 4 ==> #[trigger] packed_stride(shape@, type_size, dim) <= usize::MAX,
        packed_stride(shape@, type_size, 0) * (shape@[0] as usize) <= usize::MAX,
    ensures
        forall|dim: int|
            0 <= dim < 4 ==> #[trigger] strides@[dim] == packed_stride(shape@, type_size, dim),
{
    proof {
        reveal_with_fuel(packed_stride, 4);
        assert(packed_stride(shape@, type_size, 2) <= usize::MAX);
        assert(packed_stride(shape@, type_size, 1) <= usize::MAX);
        assert(packed_stride(shape@, type_size, 0) <= usize::MAX);
    }
    let third: usize = type_size;
    let second: usize = third * shape[3] as usize;
    let first: usize = second * shape[2] as usize;
    let zeroth: usize = first * shape[1] as usize;
    let strides: [usize; 4] = [zeroth, first, second, third];
    assert forall|dim: int| 0 <= dim < 4 implies #[trigger] strides@[dim] == packed_stride(
        shape@,
        type_size,
        dim,
    ) by {
        assert(dim == 0 || dim == 1 || dim == 2 || dim == 3);
    }
    strides
}

proof fn lemma_joined_element(elements: Seq<Seq<u8>>, size: int, k: int)
    requires
        0 <= size,
        0 <= k < elements.len(),
        forall|i: int| 0 <= i < elements.len() ==> (#[trigger] elements[i]).len() == size,
    ensures
        0 <= k * size,
        (k + 1) * size == k * size + size,
        (k + 1) * size <= joined(elements).len(),
        joined(elements).subrange(k * size, (k + 1) * size) == elements[k],
    decreases elements.len(),
{
    let before = elements.drop_last();
    lemma_joined_len(elements, size);
    lemma_joined_len(before, size);
    assert(0 <= k * size && (k + 1) * size == k * size + size) by (nonlinear_arith)
        requires
            0 <= k,
            0 <= size,
    ;
    if k < before.len() {
        lemma_joined_element(before, size, k);
        assert(before[k] == elements[k]);
        assert(joined(elements).subrange(k * size, (k + 1) * size) =~= joined(before).subrange(
            k * size,
            (k + 1) * size,
        ));
    } else {
        assert(joined(elements).subrange(k * size, (k + 1) * size) =~= elements[k]);
    }
}

/// Every element is in the pieces: so many to a piece, one behind the other.
pub proof fn pieces_hold_every_element(
    elements: Seq<Seq<u8>>,
    size: int,
    count: int,
    k: int,
)
    requires
        0 <= size,
        0 < count,
        0 <= k < elements.len(),
        forall|i: int| 0 <= i < elements.len() ==> (#[trigger] elements[i]).len() == size,
    ensures
        ({
            let start = (k % count) * size;
            &&& 0 <= k / count < buffers_of(elements, size, count).len()
            &&& buffers_of(elements, size, count)[k / count].subrange(start, start + size)
                == elements[k]
        }),
    decreases elements.len(),
{
    let buffers = buffers_of(elements, size, count);
    if k < count {
        vstd::arithmetic::div_mod::lemma_fundamental_div_mod_converse(k, count, 0, k);
        let first = if elements.len() < count {
            elements
        } else {
            elements.take(count)
        };
        lemma_joined_element(first, size, k);
        assert(first[k] == elements[k]);
        assert(buffers[0].subrange(k * size, k * size + size) =~= joined(first).subrange(
            k * size,
            (k + 1) * size,
        ));
    } else {
        let rest = elements.skip(count);
        pieces_hold_every_element(rest, size, count, k - count);
        assert(rest[k - count] == elements[k]);
        vstd::arithmetic::div_mod::lemma_fundamental_div_mod(k - count, count);
        let turns = (k - count) / count;
        let left = (k - count) % count;
        assert(k == (turns + 1) * count + left) by (nonlinear_arith)
            requires
                k - count == count * turns + left,
        ;
        vstd::arithmetic::div_mod::lemma_mod_bound(k - count, count);
        vstd::arithmetic::div_mod::lemma_fundamental_div_mod_converse(k, count, turns + 1, left);
        assert(buffers[turns + 1] == buffers_of(rest, size, count)[turns]);
    }
}

} // verus!
