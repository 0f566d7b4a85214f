//! Queues of bytes, and blocks of them.

use vstd::prelude::*;

use crate::bytes;
use crate::circular_buffer::Ring;
use crate::firmware::defmt;
use crate::wire;
use crate::workload;

verus! {

/// A push counts as many bytes as it is given, or, where they are too many, as there is room for.
pub proof fn a_push_counts_all_that_fits(ring: Ring, len: usize)
    requires
        ring.valid(),
        len <= u32::MAX,
    ensures
        0 <= ring.push_count(len) <= len,
        ring.len() + ring.push_count(len) <= ring.capacity(),
        ring.push_count(len) < len ==> ring.len() + ring.push_count(len) == ring.capacity(),
{
}

/// A pop counts as many bytes as it has room for, or, where there are fewer, all that are unread.
pub proof fn a_pop_counts_all_that_is_there(ring: Ring, len: usize)
    requires
        ring.valid(),
        len <= u32::MAX,
    ensures
        0 <= ring.pop_count(len) <= len,
        ring.pop_count(len) <= ring.len(),
        ring.pop_count(len) < len ==> ring.pop_count(len) == ring.len(),
{
}

/// A queue is empty exactly where its indices are equal, and full where they are as far apart as
/// there are cells.
pub proof fn indices_tell_empty_from_full(ring: Ring)
    requires
        ring.valid(),
    ensures
        ring.len() == 0 <==> ring.read == ring.write,
        ring.len() == ring.capacity() <==> ring.write == ring.read + ring.capacity() || ring.read
            == ring.write + ring.capacity(),
        ring.read <= ring.write ==> ring.len() == ring.write - ring.read,
        ring.read > ring.write ==> ring.len() == ring.write - ring.read + 2 * ring.capacity(),
{
    let size = 2 * ring.capacity();
    let gap = ring.write - ring.read;
    if gap >= 0 {
        vstd::arithmetic::div_mod::lemma_small_mod(gap as nat, size as nat);
    } else {
        vstd::arithmetic::div_mod::lemma_mod_add_multiples_vanish(gap, size);
        vstd::arithmetic::div_mod::lemma_small_mod((gap + size) as nat, size as nat);
    }
}

/// Two Tensixes leave their requests in places that do not overlap, within the memory that the host
/// shares with the chip.
pub proof fn requests_do_not_overlap(tensix_count: usize, first: int, second: int)
    requires
        0 <= first < second < tensix_count,
    ensures
        first * wire::REQUEST_STRIDE + wire::REQUEST_SIZE <= second * wire::REQUEST_STRIDE,
        second * wire::REQUEST_STRIDE + wire::REQUEST_SIZE <= 64 * tensix_count,
{
}

/// The reader of a log sees the firmware's bytes one after the other, and begins anew at the first
/// where it has seen the last.
pub proof fn the_log_is_read_byte_by_byte(read: int)
    requires
        0 <= read < defmt::LOG_SIZE,
    ensures
        read + 1 < defmt::LOG_SIZE ==> defmt::log_next(read) == read + 1,
        read + 1 == defmt::LOG_SIZE ==> defmt::log_next(read) == 0,
{
}

/// Of the bytes of a number the lowest comes first, and each stands for the digit of its place.
pub proof fn the_lowest_byte_comes_first(value: u32)
    ensures
        bytes::le32(value).len() == 4,
        value == bytes::le32(value)[0] + 256 * (bytes::le32(value)[1] + 256 * (bytes::le32(
            value,
        )[2] + 256 * bytes::le32(value)[3])),
{
}

/// The bytes of a long number are those of its low half, followed by those of its high half.
pub proof fn the_low_half_comes_first(value: u64)
    ensures
        bytes::le64(value).len() == 8,
        value == bytes::from_le32(bytes::le64(value).take(4)) + 0x1_0000_0000 * bytes::from_le32(
            bytes::le64(value).skip(4),
        ),
{
    let low = (value % 0x1_0000_0000) as u32;
    let high = (value / 0x1_0000_0000) as u32;
    assert(bytes::le64(value).take(4) =~= bytes::le32(low));
    assert(bytes::le64(value).skip(4) =~= bytes::le32(high));
    bytes::le32_reads_back(low);
    bytes::le32_reads_back(high);
}

/// Four bytes say a number of which the first is the lowest digit.
pub proof fn the_first_byte_is_the_lowest(four: Seq<u8>)
    requires
        four.len() == 4,
    ensures
        0 <= bytes::from_le32(four) <= u32::MAX,
        bytes::from_le32(four) % 256 == four[0],
        bytes::le32(bytes::from_le32(four) as u32) == four,
{
    let value = bytes::from_le32(four) as u32;
    let (b0, b1, b2, b3) = (four[0] as int, four[1] as int, four[2] as int, four[3] as int);
    assert(value == b0 + 0x100 * b1 + 0x1_0000 * b2 + 0x100_0000 * b3);
    assert(value % 256 == b0);
    assert(value / 0x100 == b1 + 0x100 * b2 + 0x1_0000 * b3);
    assert(value / 0x100 % 256 == b1);
    assert(value / 0x1_0000 == b2 + 0x100 * b3);
    assert(value / 0x1_0000 % 256 == b2);
    assert(value / 0x100_0000 == b3);
    assert(bytes::le32(value) =~= four);
}

/// Whether a write touches a byte.
pub open spec fn touches(write: (u32, Seq<u8>), place: int) -> bool {
    write.0 <= place < write.0 + write.1.len()
}

/// Every byte of a block that some write of a kernel touches is what the last of these wrote there.
pub proof fn the_last_write_counts(writes: Seq<(u32, Seq<u8>)>, i: int, place: int)
    requires
        0 <= i < writes.len(),
        touches(writes[i], place),
        forall|j: int| i < j < writes.len() ==> !touches(#[trigger] writes[j], place),
    ensures
        0 <= place < workload::binary_of(writes).len(),
        workload::binary_of(writes)[place] == writes[i].1[place - writes[i].0],
    decreases writes.len(),
{
    let before = writes.drop_last();
    if i < before.len() {
        assert(!touches(writes[writes.len() - 1], place));
        assert forall|j: int| i < j < before.len() implies !touches(
            #[trigger] before[j],
            place,
        ) by {
            assert(before[j] == writes[j]);
        }
        the_last_write_counts(before, i, place);
        workload::a_write_only_adds(workload::binary_of(before), writes.last(), place);
    }
}

/// A write appends its address to the block, and the block reaches to the end of the write and no
/// further. What the write itself does not touch holds the address's bytes, and then zeros.
pub proof fn a_write_appends_its_address(binary: Seq<u8>, write: (u32, Seq<u8>), place: int)
    ensures
        ({
            let after = workload::with_write(binary, write);
            let end = write.0 + write.1.len();
            &&& after.len() >= binary.len() + 4
            &&& after.len() >= end
            &&& after.len() == binary.len() + 4 || after.len() == end
            &&& binary.len() <= place < binary.len() + 4 && !touches(write, place) ==> after[place]
                == bytes::le32(write.0)[place - binary.len()]
            &&& binary.len() + 4 <= place < after.len() && !touches(write, place) ==> after[place]
                == 0
        }),
{
}

} // verus!
