//! Walking over the elements of tensors.

use vstd::prelude::*;

use crate::ggml::GgmlTensor;

verus! {

/// A position in a tensor: an index along each dimension.
pub type Position = (i64, i64, i64, i64);

/// The positions with the given first three indices.
pub open spec fn row(z: int, o: int, tw: int, count: int) -> Seq<Position> {
    Seq::new(
        if count < 0 {
            0
        } else {
            count as nat
        },
        |th: int| (z as i64, o as i64, tw as i64, th as i64),
    )
}

/// The positions with the given first two indices, and the third below `count`.
pub open spec fn rows(shape: Seq<i64>, z: int, o: int, count: int) -> Seq<Position>
    decreases count,
{
    if count <= 0 {
        seq![]
    } else {
        rows(shape, z, o, count - 1) + row(z, o, count - 1, shape[3] as int)
    }
}

/// The positions with the given first index, and the second below `count`.
pub open spec fn planes(shape: Seq<i64>, z: int, count: int) -> Seq<Position>
    decreases count,
{
    if count <= 0 {
        seq![]
    } else {
        planes(shape, z, count - 1) + rows(shape, z, count - 1, shape[2] as int)
    }
}

/// The positions whose first index is below `count`.
pub open spec fn blocks(shape: Seq<i64>, count: int) -> Seq<Position>
    decreases count,
{
    if count <= 0 {
        seq![]
    } else {
        blocks(shape, count - 1) + planes(shape, count - 1, shape[1] as int)
    }
}

/// All positions of a shape, the last index running fastest.
pub open spec fn positions(shape: Seq<i64>) -> Seq<Position> {
    blocks(shape, shape[0] as int)
}

/// Whether a position lies in a shape.
pub open spec fn in_shape(shape: Seq<i64>, at: Position) -> bool {
    &&& 0 <= at.0 < shape[0]
    &&& 0 <= at.1 < shape[1]
    &&& 0 <= at.2 < shape[2]
    &&& 0 <= at.3 < shape[3]
}

/// How many bytes into a tensor's data a position is.
pub open spec fn offset_at(strides: Seq<usize>, at: Position) -> int {
    at.0 * strides[0] + at.1 * strides[1] + at.2 * strides[2] + at.3 * strides[3]
}

/// The offsets of all positions of a shape.
pub open spec fn offsets_of(shape: Seq<i64>, strides: Seq<usize>) -> Seq<usize> {
    positions(shape).map_values(|at: Position| offset_at(strides, at) as usize)
}

pub open spec fn last_index(dim: i64) -> i64 {
    if dim > 0 {
        (dim - 1) as i64
    } else {
        0
    }
}

/// The largest offset that a walk over a shape comes to.
pub open spec fn reach(shape: Seq<i64>, strides: Seq<usize>) -> int {
    offset_at(
        strides,
        (last_index(shape[0]), last_index(shape[1]), last_index(shape[2]), last_index(shape[3])),
    )
}

/// Whether all offsets of a walk can be told.
pub open spec fn walkable(shape: Seq<i64>, strides: Seq<usize>) -> bool {
    ||| shape[0] <= 0 || shape[1] <= 0 || shape[2] <= 0 || shape[3] <= 0
    ||| reach(shape, strides) <= i64::MAX && reach(shape, strides) <= usize::MAX
}

proof fn lemma_step(index: int, last: int, stride: int)
    requires
        0 <= index <= last,
        0 <= stride,
    ensures
        0 <= index * stride <= last * stride,
{
    assert(0 <= index * stride <= last * stride) by (nonlinear_arith)
        requires
            0 <= index <= last,
            0 <= stride,
    ;
}

/// No position of a shape is beyond its reach.
pub proof fn offsets_are_within_reach(shape: Seq<i64>, strides: Seq<usize>, at: Position)
    requires
        in_shape(shape, at),
    ensures
        0 <= offset_at(strides, at) <= reach(shape, strides),
        0 <= at.0 * strides[0],
        0 <= at.1 * strides[1],
        0 <= at.2 * strides[2],
        0 <= at.3 * strides[3],
{
    lemma_step(at.0 as int, shape[0] - 1, strides[0] as int);
    lemma_step(at.1 as int, shape[1] - 1, strides[1] as int);
    lemma_step(at.2 as int, shape[2] - 1, strides[2] as int);
    lemma_step(at.3 as int, shape[3] - 1, strides[3] as int);
}

proof fn lemma_rows_in_shape(shape: Seq<i64>, z: int, o: int, count: int)
    requires
        0 <= z < shape[0],
        0 <= o < shape[1],
        count <= shape[2],
    ensures
        forall|k: int|
            0 <= k < rows(shape, z, o, count).len() ==> in_shape(
                shape,
                #[trigger] rows(shape, z, o, count)[k],
            ),
    decreases count,
{
    if count > 0 {
        lemma_rows_in_shape(shape, z, o, count - 1);
        let before = rows(shape, z, o, count - 1);
        let all = rows(shape, z, o, count);
        assert forall|k: int| 0 <= k < all.len() implies in_shape(shape, #[trigger] all[k]) by {
            if k < before.len() {
                assert(all[k] == before[k]);
            } else {
                assert(all[k] == row(z, o, count - 1, shape[3] as int)[k - before.len()]);
            }
        }
    }
}

proof fn lemma_planes_in_shape(shape: Seq<i64>, z: int, count: int)
    requires
        0 <= z < shape[0],
        count <= shape[1],
    ensures
        forall|k: int|
            0 <= k < planes(shape, z, count).len() ==> in_shape(
                shape,
                #[trigger] planes(shape, z, count)[k],
            ),
    decreases count,
{
    if count > 0 {
        lemma_planes_in_shape(shape, z, count - 1);
        lemma_rows_in_shape(shape, z, count - 1, shape[2] as int);
        let before = planes(shape, z, count - 1);
        let all = planes(shape, z, count);
        assert forall|k: int| 0 <= k < all.len() implies in_shape(shape, #[trigger] all[k]) by {
            if k < before.len() {
                assert(all[k] == before[k]);
            } else {
                assert(all[k] == rows(shape, z, count - 1, shape[2] as int)[k - before.len()]);
            }
        }
    }
}

proof fn lemma_blocks_in_shape(shape: Seq<i64>, count: int)
    requires
        count <= shape[0],
    ensures
        forall|k: int|
            0 <= k < blocks(shape, count).len() ==> in_shape(
                shape,
                #[trigger] blocks(shape, count)[k],
            ),
    decreases count,
{
    if count > 0 {
        lemma_blocks_in_shape(shape, count - 1);
        lemma_planes_in_shape(shape, count - 1, shape[1] as int);
        let before = blocks(shape, count - 1);
        let all = blocks(shape, count);
        assert forall|k: int| 0 <= k < all.len() implies in_shape(shape, #[trigger] all[k]) by {
            if k < before.len() {
                assert(all[k] == before[k]);
            } else {
                assert(all[k] == planes(shape, count - 1, shape[1] as int)[k - before.len()]);
            }
        }
    }
}

/// A walk stays in the shape.
pub proof fn a_walk_stays_in_the_shape(shape: Seq<i64>, k: int)
    requires
        0 <= k < positions(shape).len(),
    ensures
        in_shape(shape, positions(shape)[k]),
{
    lemma_blocks_in_shape(shape, shape[0] as int);
}

/// Every position of a shape is visited, at the place that the last index running fastest gives it.
pub proof fn a_walk_visits_every_position(shape: Seq<i64>, at: Position)
    requires
        in_shape(shape, at),
    ensures
        ({
            let k = ((at.0 * shape[1] + at.1) * shape[2] + at.2) * shape[3] + at.3;
            0 <= k < positions(shape).len() && positions(shape)[k] == at
        }),
{
    let (s1, s2, s3) = (shape[1] as int, shape[2] as int, shape[3] as int);
    lemma_blocks_len(shape, at.0 as int);
    lemma_blocks_len(shape, at.0 + 1);
    lemma_blocks_prefix(shape, at.0 + 1, shape[0] as int);
    lemma_planes_len(shape, at.0 as int, at.1 as int);
    lemma_planes_len(shape, at.0 as int, at.1 + 1);
    lemma_planes_prefix(shape, at.0 as int, at.1 + 1, s1);
    lemma_rows_len(shape, at.0 as int, at.1 as int, at.2 as int);
    lemma_rows_len(shape, at.0 as int, at.1 as int, at.2 + 1);
    lemma_rows_prefix(shape, at.0 as int, at.1 as int, at.2 + 1, s2);

    let in_rows = at.2 * s3 + at.3;
    let in_planes = at.1 * (s2 * s3) + in_rows;
    let in_blocks = at.0 * (s1 * (s2 * s3)) + in_planes;
    let k = ((at.0 * s1 + at.1) * s2 + at.2) * s3 + at.3;
    assert(k == in_blocks) by (nonlinear_arith)
        requires
            in_rows == at.2 * s3 + at.3,
            in_planes == at.1 * (s2 * s3) + in_rows,
            in_blocks == at.0 * (s1 * (s2 * s3)) + in_planes,
            k == ((at.0 * s1 + at.1) * s2 + at.2) * s3 + at.3,
    ;
    lemma_step(at.2 as int, at.2 as int, s3);
    lemma_step(s2, s2, s3);
    lemma_step(at.1 as int, at.1 as int, s2 * s3);
    lemma_step(s1, s1, s2 * s3);
    lemma_step(at.0 as int, at.0 as int, s1 * (s2 * s3));
    let (z, o, tw) = (at.0 as int, at.1 as int, at.2 as int);
    let few_rows = rows(shape, z, o, tw + 1);
    assert(few_rows[in_rows] == row(z, o, tw, s3)[at.3 as int]);
    assert(rows(shape, z, o, s2).subrange(0, few_rows.len() as int)[in_rows] == at);
    let few_planes = planes(shape, z, o + 1);
    assert(few_planes[in_planes] == rows(shape, z, o, s2)[in_rows]);
    assert(planes(shape, z, s1).subrange(0, few_planes.len() as int)[in_planes] == at);
    let few_blocks = blocks(shape, z + 1);
    assert(few_blocks[in_blocks] == planes(shape, z, s1)[in_planes]);
    assert(positions(shape).subrange(0, few_blocks.len() as int)[in_blocks] == at);
}

/// Different places of a walk hold different positions.
pub proof fn a_walk_visits_no_position_twice(shape: Seq<i64>, a: int, b: int)
    requires
        0 <= a < positions(shape).len(),
        0 <= b < positions(shape).len(),
        positions(shape)[a] == positions(shape)[b],
    ensures
        a == b,
{
    a_walk_stays_in_the_shape(shape, a);
    lemma_place(shape, a);
    lemma_place(shape, b);
}

/// Where a position stands in the walk.
spec fn place_of(shape: Seq<i64>, at: Position) -> int {
    at.0 * (shape[1] * (shape[2] * shape[3])) + at.1 * (shape[2] * shape[3]) + at.2 * shape[3]
        + at.3
}

proof fn lemma_place_in_rows(shape: Seq<i64>, z: int, o: int, count: int, k: int)
    requires
        0 <= z < shape[0],
        0 <= o < shape[1],
        0 <= count <= shape[2],
        0 <= k < rows(shape, z, o, count).len(),
    ensures
        ({
            let at = rows(shape, z, o, count)[k];
            k == at.2 * shape[3] + at.3 && at.0 == z && at.1 == o
        }),
    decreases count,
{
    let before = rows(shape, z, o, count - 1);
    lemma_rows_len(shape, z, o, count - 1);
    if k < before.len() {
        lemma_place_in_rows(shape, z, o, count - 1, k);
    }
}

proof fn lemma_place_in_planes(shape: Seq<i64>, z: int, count: int, k: int)
    requires
        0 <= z < shape[0],
        0 <= count <= shape[1],
        0 <= k < planes(shape, z, count).len(),
    ensures
        ({
            let at = planes(shape, z, count)[k];
            k == at.1 * (shape[2] * shape[3]) + at.2 * shape[3] + at.3 && at.0 == z
        }),
    decreases count,
{
    let before = planes(shape, z, count - 1);
    lemma_planes_len(shape, z, count - 1);
    if k < before.len() {
        lemma_place_in_planes(shape, z, count - 1, k);
    } else {
        lemma_place_in_rows(shape, z, count - 1, shape[2] as int, k - before.len());
        lemma_rows_in_shape(shape, z, count - 1, shape[2] as int);
        let at = rows(shape, z, count - 1, shape[2] as int)[k - before.len()];
        assert(planes(shape, z, count)[k] == at);
        assert(in_shape(shape, at));
    }
}

proof fn lemma_place_in_blocks(shape: Seq<i64>, count: int, k: int)
    requires
        0 <= count <= shape[0],
        0 <= k < blocks(shape, count).len(),
    ensures
        k == place_of(shape, blocks(shape, count)[k]),
    decreases count,
{
    let before = blocks(shape, count - 1);
    lemma_blocks_len(shape, count - 1);
    if k < before.len() {
        lemma_place_in_blocks(shape, count - 1, k);
    } else {
        lemma_place_in_planes(shape, count - 1, shape[1] as int, k - before.len());
        lemma_planes_in_shape(shape, count - 1, shape[1] as int);
        let at = planes(shape, count - 1, shape[1] as int)[k - before.len()];
        assert(blocks(shape, count)[k] == at);
        assert(in_shape(shape, at));
    }
}

proof fn lemma_place(shape: Seq<i64>, k: int)
    requires
        0 <= k < positions(shape).len(),
    ensures
        k == place_of(shape, positions(shape)[k]),
{
    if shape[0] > 0 {
        lemma_place_in_blocks(shape, shape[0] as int, k);
    }
}

spec fn size_of_dim(dim: i64) -> int {
    if dim > 0 {
        dim as int
    } else {
        0
    }
}

proof fn lemma_rows_len(shape: Seq<i64>, z: int, o: int, count: int)
    ensures
        count >= 0 ==> rows(shape, z, o, count).len() == count * size_of_dim(shape[3]),
    decreases count,
{
    let size = size_of_dim(shape[3]);
    if count > 0 {
        lemma_rows_len(shape, z, o, count - 1);
        assert((count - 1) * size + size == count * size) by (nonlinear_arith);
    } else if count == 0 {
        assert(0 * size == 0) by (nonlinear_arith);
    }
}

proof fn lemma_planes_len(shape: Seq<i64>, z: int, count: int)
    ensures
        count >= 0 ==> planes(shape, z, count).len() == count * (size_of_dim(shape[2])
            * size_of_dim(shape[3])),
    decreases count,
{
    let size = size_of_dim(shape[2]) * size_of_dim(shape[3]);
    if count > 0 {
        lemma_planes_len(shape, z, count - 1);
        lemma_rows_len(shape, z, count - 1, size_of_dim(shape[2]));
        assert((count - 1) * size + size == count * size) by (nonlinear_arith);
    } else if count == 0 {
        assert(0 * size == 0) by (nonlinear_arith);
    }
}

proof fn lemma_blocks_len(shape: Seq<i64>, count: int)
    ensures
        count >= 0 ==> blocks(shape, count).len() == count * (size_of_dim(shape[1]) * (size_of_dim(
            shape[2],
        ) * size_of_dim(shape[3]))),
    decreases count,
{
    let size = size_of_dim(shape[1]) * (size_of_dim(shape[2]) * size_of_dim(shape[3]));
    if count > 0 {
        lemma_blocks_len(shape, count - 1);
        lemma_planes_len(shape, count - 1, size_of_dim(shape[1]));
        assert((count - 1) * size + size == count * size) by (nonlinear_arith);
    } else if count == 0 {
        assert(0 * size == 0) by (nonlinear_arith);
    }
}

proof fn lemma_rows_prefix(shape: Seq<i64>, z: int, o: int, few: int, many: int)
    requires
        0 <= few <= many,
    ensures
        rows(shape, z, o, few).is_prefix_of(rows(shape, z, o, many)),
    decreases many,
{
    if few < many {
        lemma_rows_prefix(shape, z, o, few, many - 1);
    }
}

proof fn lemma_planes_prefix(shape: Seq<i64>, z: int, few: int, many: int)
    requires
        0 <= few <= many,
    ensures
        planes(shape, z, few).is_prefix_of(planes(shape, z, many)),
    decreases many,
{
    if few < many {
        lemma_planes_prefix(shape, z, few, many - 1);
    }
}

proof fn lemma_blocks_prefix(shape: Seq<i64>, few: int, many: int)
    requires
        0 <= few <= many,
    ensures
        blocks(shape, few).is_prefix_of(blocks(shape, many)),
    decreases many,
{
    if few < many {
        lemma_blocks_prefix(shape, few, many - 1);
    }
}

/// All positions of a shape, in order.
fn walk(shape: &[i64; 4]) -> (walk: Vec<Position>)
    ensures
        walk@ == positions(shape@),
{
    let mut walk: Vec<Position> = Vec::new();
    let mut z: i64 = 0;
    while z < shape[0]
        invariant
            0 <= z,
            shape@[0] >= 0 ==> z <= shape@[0],
            shape@[0] < 0 ==> z == 0,
            walk@ == blocks(shape@, z as int),
        decreases shape@[0] - z,
    {
        let ghost before = walk@;
        let mut o: i64 = 0;
        assert(walk@ =~= before + planes(shape@, z as int, 0));
        while o < shape[1]
            invariant
                0 <= o,
                shape@[1] >= 0 ==> o <= shape@[1],
                shape@[1] < 0 ==> o == 0,
                walk@ == before + planes(shape@, z as int, o as int),
            decreases shape@[1] - o,
        {
            let ghost in_block = walk@;
            let mut tw: i64 = 0;
            assert(walk@ =~= in_block + rows(shape@, z as int, o as int, 0));
            while tw < shape[2]
                invariant
                    0 <= tw,
                    shape@[2] >= 0 ==> tw <= shape@[2],
                    shape@[2] < 0 ==> tw == 0,
                    walk@ == in_block + rows(shape@, z as int, o as int, tw as int),
                decreases shape@[2] - tw,
            {
                let ghost in_plane = walk@;
                let mut th: i64 = 0;
                assert(walk@ =~= in_plane + row(z as int, o as int, tw as int, 0));
                while th < shape[3]
                    invariant
                        0 <= th,
                        shape@[3] >= 0 ==> th <= shape@[3],
                        shape@[3] < 0 ==> th == 0,
                        walk@ == in_plane + row(z as int, o as int, tw as int, th as int),
                    decreases shape@[3] - th,
                {
                    walk.push((z, o, tw, th));
                    assert(walk@ =~= in_plane + row(z as int, o as int, tw as int, th + 1));
                    th = th + 1;
                }
                assert(row(z as int, o as int, tw as int, th as int) =~= row(
                    z as int,
                    o as int,
                    tw as int,
                    shape@[3] as int,
                ));
                assert(walk@ =~= in_block + rows(shape@, z as int, o as int, tw + 1));
                tw = tw + 1;
            }
            assert(rows(shape@, z as int, o as int, tw as int) == rows(
                shape@,
                z as int,
                o as int,
                shape@[2] as int,
            ));
            assert(walk@ =~= before + planes(shape@, z as int, o + 1));
            o = o + 1;
        }
        assert(planes(shape@, z as int, o as int) == planes(shape@, z as int, shape@[1] as int));
        assert(walk@ =~= blocks(shape@, z + 1));
        z = z + 1;
    }
    walk
}

/// How many bytes away the last index along a dimension is.
fn last_offset(dim: i64, stride: usize) -> (offset: u128)
    requires
        dim > 0,
    ensures
        offset == last_index(dim) * stride,
        0 <= last_index(dim) * stride,
{
    let last: i64 = dim - 1;
    assert(0 <= last * stride <= u128::MAX) by (nonlinear_arith)
        requires
            0 <= last <= i64::MAX,
            0 <= stride <= u64::MAX,
    ;
    last as u128 * stride as u128
}

/// Whether all offsets of a walk can be told.
pub fn is_walkable(shape: &[i64; 4], strides: &[usize; 4]) -> (yes: bool)
    ensures
        yes == walkable(shape@, strides@),
{
    if shape[0] <= 0 || shape[1] <= 0 || shape[2] <= 0 || shape[3] <= 0 {
        return true;
    }
    let limit: u128 = i64::MAX as u128;
    let z: u128 = last_offset(shape[0], strides[0]);
    let o: u128 = last_offset(shape[1], strides[1]);
    let tw: u128 = last_offset(shape[2], strides[2]);
    let th: u128 = last_offset(shape[3], strides[3]);
    if z > limit || o > limit || tw > limit || th > limit {
        return false;
    }
    let reached: u128 = z + o + tw + th;
    reached <= limit && reached <= usize::MAX as u128
}

/// How many bytes into a tensor's data a position is.
fn offset(strides: &[usize; 4], at: Position, Ghost(shape): Ghost<Seq<i64>>) -> (offset: usize)
    requires
        in_shape(shape, at),
        walkable(shape, strides@),
    ensures
        offset == offset_at(strides@, at),
{
    proof {
        offsets_are_within_reach(shape, strides@, at);
    }
    let z: u128 = at.0 as u128 * strides[0] as u128;
    let o: u128 = z + at.1 as u128 * strides[1] as u128;
    let tw: u128 = o + at.2 as u128 * strides[2] as u128;
    (tw + at.3 as u128 * strides[3] as u128) as usize
}

/// The offsets of all positions of a shape, in order.
pub fn walk_offsets(shape: &[i64; 4], strides: &[usize; 4]) -> (offsets: Vec<usize>)
    requires
        walkable(shape@, strides@),
    ensures
        offsets@ == offsets_of(shape@, strides@),
{
    let walk = walk(shape);
    let mut offsets: Vec<usize> = Vec::new();
    for k in 0..walk.len()
        invariant
            walk@ == positions(shape@),
            walkable(shape@, strides@),
            offsets@ =~= offsets_of(shape@, strides@).take(k as int),
    {
        proof {
            a_walk_stays_in_the_shape(shape@, k as int);
        }
        offsets.push(offset(strides, walk[k], Ghost(shape@)));
    }
    offsets
}

/// The offsets of a tensor's elements, in order.
pub fn iterate(a: &GgmlTensor) -> (offsets: Vec<usize>)
    requires
        walkable(a.ne@, a.nb@),
    ensures
        offsets@ == offsets_of(a.ne@, a.nb@),
{
    walk_offsets(&a.ne, &a.nb)
}

} // verus!
