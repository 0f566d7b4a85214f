//! The wire format between the host and the firmware.

use vstd::prelude::*;

use crate::launch_data::{CoreLaunchData, LaunchData, LaunchRequest};
use crate::relocate::{KernelRelocation, RelocationRead};

verus! {

/// A number as postcard writes it: seven bits to a byte, the lowest first, and the high bit set in
/// every byte but the last.
pub open spec fn varint(value: int) -> Seq<u8>
    decreases value,
{
    if value < 128 {
        seq![value as u8]
    } else {
        seq![(128 + value % 128) as u8] + varint(value / 128)
    }
}

/// A signed number as an unsigned one, with the sign in the lowest bit.
pub open spec fn zigzag(value: int) -> int {
    if value < 0 {
        -2 * value - 1
    } else {
        2 * value
    }
}

/// The number at the start of `bytes`, in at most `most` of them, and how many it takes.
pub open spec fn read_varint(bytes: Seq<u8>, most: int) -> Option<(int, int)>
    decreases bytes.len(),
{
    if most <= 0 || bytes.len() == 0 {
        None
    } else if bytes[0] < 128 {
        Some((bytes[0] as int, 1))
    } else {
        match read_varint(bytes.skip(1), most - 1) {
            Some((value, len)) => Some((bytes[0] - 128 + 128 * value, len + 1)),
            None => None,
        }
    }
}

/// The 64-bit number at the start of `bytes`, and how many of them it takes.
pub open spec fn read_u64(bytes: Seq<u8>) -> Option<(u64, int)> {
    match read_varint(bytes, 10) {
        Some((value, len)) => if value <= u64::MAX {
            Some((value as u64, len))
        } else {
            None
        },
        None => None,
    }
}

/// What stands at the start of `bytes` where a core may have asked for a job: nothing that can be
/// read, no request, or the two numbers of one.
pub open spec fn read_request(bytes: Seq<u8>) -> Option<Option<(u64, u64)>> {
    if bytes.len() == 0 {
        None
    } else if bytes[0] == 0 {
        Some(None)
    } else if bytes[0] == 1 {
        match read_u64(bytes.skip(1)) {
            Some((addr, len)) => match read_u64(bytes.skip(1 + len)) {
                Some((offset, _)) => Some(Some((addr, offset))),
                None => None,
            },
            None => None,
        }
    } else {
        None
    }
}

/// A request as a core writes it.
pub open spec fn request_wire(request: LaunchRequest) -> Seq<u8> {
    seq![1u8] + varint(request.job_request_addr as int) + varint(request.job_offset as int)
}

#[verifier::external_type_specification]
#[verifier::external_body]
pub struct ExPostcardError(postcard::Error);

/// `postcard::from_bytes` on an optional pair of `u64`: a byte that tells whether the pair is
/// there, then the two numbers as varints. Bytes behind them are ignored.
#[verifier::external_body]
fn pair_from_bytes(bytes: &[u8]) -> (pair: Result<Option<(u64, u64)>, postcard::Error>)
    ensures
        match pair {
            Ok(pair) => read_request(bytes@) == Some(pair),
            Err(_) => read_request(bytes@) is None,
        },
{
    postcard::from_bytes::<Option<(u64, u64)>>(bytes)
}

/// The most bytes that a request takes, or the sign that there is none.
pub const REQUEST_SIZE: usize = 21;

/// How far the requests of two cores are apart: the size of a request rounded up to the alignment
/// of the host's memory.
pub const REQUEST_STRIDE: usize = 64;

/// Reads the request that a core may have left. `None` where the bytes are not what a core writes.
pub fn read_launch_request(bytes: &[u8]) -> (request: Option<Option<LaunchRequest>>)
    ensures
        match read_request(bytes@) {
            None => request is None,
            Some(None) => request == Some(None::<LaunchRequest>),
            Some(Some((job_request_addr, job_offset))) => request == Some(
                Some(LaunchRequest { job_request_addr, job_offset }),
            ),
        },
{
    match pair_from_bytes(bytes) {
        Ok(Some((job_request_addr, job_offset))) => Some(
            Some(LaunchRequest { job_request_addr, job_offset }),
        ),
        Ok(None) => Some(None),
        Err(_) => None,
    }
}

/// A relocation on the wire.
pub open spec fn relocation_wire(relocation: KernelRelocation) -> Seq<u8> {
    varint(relocation.write_offset as int) + match relocation.read_offset {
        RelocationRead::Base32 => varint(0),
        RelocationRead::SymbolValue32(value) => varint(1) + varint(value as int),
        RelocationRead::Offset(offset) => varint(2) + varint(offset as int),
    } + varint(zigzag(relocation.addend as int))
}

/// `postcard::to_extend` on a tuple of numbers: appends them one after the other as varints, that of
/// a signed one with the sign in the lowest bit.
#[verifier::external_body]
fn extend_with_three(out: Vec<u8>, fields: (u64, u32, i64)) -> (extended: Vec<u8>)
    ensures
        extended@ == out@ + varint(fields.0 as int) + varint(fields.1 as int) + varint(
            zigzag(fields.2 as int),
        ),
{
    postcard::to_extend(&fields, out).unwrap()
}

/// `postcard::to_extend` on a tuple of one number more.
#[verifier::external_body]
fn extend_with_four(out: Vec<u8>, fields: (u64, u32, u64, i64)) -> (extended: Vec<u8>)
    ensures
        extended@ == out@ + varint(fields.0 as int) + varint(fields.1 as int) + varint(
            fields.2 as int,
        ) + varint(zigzag(fields.3 as int)),
{
    postcard::to_extend(&fields, out).unwrap()
}

/// Appends a relocation: where it writes, which kind of read it has and what that carries, and its
/// addend.
pub fn push_relocation(out: Vec<u8>, relocation: &KernelRelocation) -> (extended: Vec<u8>)
    ensures
        extended@ == out@ + relocation_wire(*relocation),
{
    let ghost before = out@;
    let at: u64 = relocation.write_offset;
    let addend: i64 = relocation.addend;
    let out = match relocation.read_offset {
        RelocationRead::Base32 => extend_with_three(out, (at, 0, addend)),
        RelocationRead::SymbolValue32(value) => extend_with_four(out, (at, 1, value as u64, addend)),
        RelocationRead::Offset(offset) => extend_with_four(out, (at, 2, offset, addend)),
    };
    assert(out@ =~= before + relocation_wire(*relocation));
    out
}

/// What a core is told, as plain values.
type CoreFields = (u32, Option<u32>);

/// A job as plain values: the workload, the bounds of its zeroes, the five cores and the data.
type JobFields = (
    ((u8, u8), u64, u64, u64),
    (u32, u32),
    (CoreFields, CoreFields, CoreFields, CoreFields, CoreFields),
    ((u8, u8), u64, u32),
);

/// What a core is told, on the wire.
pub open spec fn core_wire(entry: u32, stack: Option<u32>) -> Seq<u8> {
    varint(entry as int) + match stack {
        Some(stack) => seq![1u8] + varint(stack as int),
        None => seq![0u8],
    }
}

/// A job on the wire.
pub open spec fn launch_wire(data: LaunchData) -> Seq<u8> {
    seq![data.workload_bank.0, data.workload_bank.1] + varint(data.workload_bank_offset as int)
        + varint(data.workload_bank_size as int) + varint(data.kernel_size as int) + varint(
        data.bss as int,
    ) + varint(data.ebss as int) + core_wire(data.brisc.entry, data.brisc.stack) + core_wire(
        data.ncrisc.entry,
        data.ncrisc.stack,
    ) + core_wire(data.trisc0.entry, data.trisc0.stack) + core_wire(
        data.trisc1.entry,
        data.trisc1.stack,
    ) + core_wire(data.trisc2.entry, data.trisc2.stack) + seq![
        data.data_bank.0,
        data.data_bank.1,
    ] + varint(data.data_bank_offset as int) + varint(data.flag as int)
}

/// `postcard::to_extend` on tuples within a tuple: appends what they hold one after the other, a
/// `u8` as it is, a larger number as a varint, and what may be missing behind a byte that tells
/// whether it is there.
#[verifier::external_body]
fn extend_with_job(out: Vec<u8>, job: JobFields) -> (extended: Vec<u8>)
    ensures
        extended@ == out@ + seq![job.0.0.0, job.0.0.1] + varint(job.0.1 as int) + varint(
            job.0.2 as int,
        ) + varint(job.0.3 as int) + varint(job.1.0 as int) + varint(job.1.1 as int) + core_wire(
            job.2.0.0,
            job.2.0.1,
        ) + core_wire(job.2.1.0, job.2.1.1) + core_wire(job.2.2.0, job.2.2.1) + core_wire(
            job.2.3.0,
            job.2.3.1,
        ) + core_wire(job.2.4.0, job.2.4.1) + seq![job.3.0.0, job.3.0.1] + varint(job.3.1 as int)
            + varint(job.3.2 as int),
{
    postcard::to_extend(&job, out).unwrap()
}

/// What a core is told, as plain values.
fn core_fields(core: &CoreLaunchData) -> (fields: CoreFields)
    ensures
        fields == (core.entry, core.stack),
{
    (core.entry, core.stack)
}

/// Appends a job.
pub fn push_launch_data(out: Vec<u8>, data: &LaunchData) -> (extended: Vec<u8>)
    ensures
        extended@ == out@ + launch_wire(*data),
{
    let ghost before = out@;
    let workload = (
        data.workload_bank,
        data.workload_bank_offset,
        data.workload_bank_size,
        data.kernel_size,
    );
    let cores = (
        core_fields(&data.brisc),
        core_fields(&data.ncrisc),
        core_fields(&data.trisc0),
        core_fields(&data.trisc1),
        core_fields(&data.trisc2),
    );
    let rest = (data.data_bank, data.data_bank_offset, data.flag);
    let out = extend_with_job(out, (workload, (data.bss, data.ebss), cores, rest));
    assert(out@ =~= before + launch_wire(*data));
    out
}

/// A number reads back from its varint, whatever stands behind it.
pub proof fn varint_reads_back(value: int, rest: Seq<u8>, most: int)
    requires
        0 <= value,
        varint(value).len() <= most,
    ensures
        read_varint(varint(value) + rest, most) == Some((value, varint(value).len() as int)),
        varint(value).len() >= 1,
    decreases value,
{
    let bytes = varint(value) + rest;
    if value >= 128 {
        let tail = varint(value / 128);
        assert(varint(value).len() == 1 + tail.len());
        varint_reads_back(value / 128, rest, most - 1);
        assert(bytes.skip(1) =~= tail + rest);
    }
}

spec fn pow128(n: int) -> int
    decreases n,
{
    if n <= 0 {
        1
    } else {
        128 * pow128(n - 1)
    }
}

/// A byte of a varint holds seven bits.
proof fn lemma_varint_len(value: int, len: int)
    requires
        0 <= value < pow128(len),
        len >= 1,
    ensures
        varint(value).len() <= len,
    decreases len,
{
    if value >= 128 {
        if len == 1 {
            assert(pow128(1) == 128 * pow128(0));
        } else {
            lemma_varint_len(value / 128, len - 1);
        }
    }
}

/// A 64-bit number takes at most ten bytes.
pub proof fn varint_of_u64_is_short(value: u64)
    ensures
        1 <= varint(value as int).len() <= 10,
{
    assert(pow128(10) > u64::MAX) by {
        reveal_with_fuel(pow128, 11);
    }
    lemma_varint_len(value as int, 10);
    varint_reads_back(value as int, seq![], 10);
}

/// A 32-bit number takes at most five bytes.
pub proof fn varint_of_u32_is_short(value: u32)
    ensures
        1 <= varint(value as int).len() <= 5,
{
    assert(pow128(5) > u32::MAX) by {
        reveal_with_fuel(pow128, 6);
    }
    lemma_varint_len(value as int, 5);
    varint_reads_back(value as int, seq![], 5);
}

/// The host reads the request that a core wrote, whatever stands behind it.
pub proof fn requests_read_back(request: LaunchRequest, rest: Seq<u8>)
    ensures
        read_request(request_wire(request) + rest) == Some(
            Some((request.job_request_addr, request.job_offset)),
        ),
{
    let addr = varint(request.job_request_addr as int);
    let offset = varint(request.job_offset as int);
    let bytes = request_wire(request) + rest;
    varint_of_u64_is_short(request.job_request_addr);
    varint_of_u64_is_short(request.job_offset);
    assert(bytes.skip(1) =~= addr + (offset + rest));
    varint_reads_back(request.job_request_addr as int, offset + rest, 10);
    assert(bytes.skip(1 + addr.len() as int) =~= offset + rest);
    varint_reads_back(request.job_offset as int, rest, 10);
}

/// A request is never longer than what the host reads.
pub proof fn requests_fit(request: LaunchRequest)
    ensures
        request_wire(request).len() <= REQUEST_SIZE,
        REQUEST_SIZE <= REQUEST_STRIDE,
        REQUEST_STRIDE % 64 == 0,
        REQUEST_STRIDE - REQUEST_SIZE < 64,
{
    varint_of_u64_is_short(request.job_request_addr);
    varint_of_u64_is_short(request.job_offset);
}

/// The 32-bit number at the start of `bytes`, and how many of them it takes.
pub open spec fn read_u32(bytes: Seq<u8>) -> Option<(u32, int)> {
    match read_varint(bytes, 5) {
        Some((value, len)) => if value <= u32::MAX {
            Some((value as u32, len))
        } else {
            None
        },
        None => None,
    }
}

/// The number that `zigzag` makes an unsigned one of.
pub open spec fn unzigzag(value: int) -> int {
    if value % 2 == 0 {
        value / 2
    } else {
        -(value + 1) / 2
    }
}

/// What a relocation reads, at the start of `bytes`, and how many of them it takes.
pub open spec fn read_source(bytes: Seq<u8>) -> Option<(RelocationRead, int)> {
    match read_u32(bytes) {
        Some((0, len)) => Some((RelocationRead::Base32, len)),
        Some((1, len)) => match read_u32(bytes.skip(len)) {
            Some((value, more)) => Some((RelocationRead::SymbolValue32(value), len + more)),
            None => None,
        },
        Some((2, len)) => match read_u64(bytes.skip(len)) {
            Some((value, more)) => Some((RelocationRead::Offset(value), len + more)),
            None => None,
        },
        _ => None,
    }
}

/// The relocation at the start of `bytes`, and how many of them it takes.
pub open spec fn read_relocation(bytes: Seq<u8>) -> Option<(KernelRelocation, int)> {
    match read_u64(bytes) {
        Some((write_offset, first)) => match read_source(bytes.skip(first)) {
            Some((read_offset, second)) => match read_u64(bytes.skip(first + second)) {
                Some((addend, third)) => Some(
                    (
                        KernelRelocation {
                            write_offset,
                            read_offset,
                            addend: unzigzag(addend as int) as i64,
                        },
                        first + second + third,
                    ),
                ),
                None => None,
            },
            None => None,
        },
        None => None,
    }
}

/// The firmware reads the relocation that the host wrote, and finds the next one behind it.
pub proof fn relocations_read_back(relocation: KernelRelocation, rest: Seq<u8>)
    ensures
        read_relocation(relocation_wire(relocation) + rest) == Some(
            (relocation, relocation_wire(relocation).len() as int),
        ),
{
    let bytes = relocation_wire(relocation) + rest;
    let first = varint(relocation.write_offset as int);
    let source = match relocation.read_offset {
        RelocationRead::Base32 => varint(0),
        RelocationRead::SymbolValue32(value) => varint(1) + varint(value as int),
        RelocationRead::Offset(offset) => varint(2) + varint(offset as int),
    };
    let addend = varint(zigzag(relocation.addend as int));
    let behind = addend + rest;

    varint_of_u64_is_short(relocation.write_offset);
    varint_reads_back(relocation.write_offset as int, source + behind, 10);
    assert(bytes =~= first + (source + behind));

    assert(bytes.skip(first.len() as int) =~= source + behind);
    varint_of_u32_is_short(0);
    varint_of_u32_is_short(1);
    varint_of_u32_is_short(2);
    match relocation.read_offset {
        RelocationRead::Base32 => {
            varint_reads_back(0, behind, 5);
        },
        RelocationRead::SymbolValue32(value) => {
            let payload = varint(value as int);
            assert(source + behind =~= varint(1) + (payload + behind));
            varint_reads_back(1, payload + behind, 5);
            varint_of_u32_is_short(value);
            varint_reads_back(value as int, behind, 5);
            assert((source + behind).skip(varint(1).len() as int) =~= payload + behind);
        },
        RelocationRead::Offset(offset) => {
            let payload = varint(offset as int);
            assert(source + behind =~= varint(2) + (payload + behind));
            varint_reads_back(2, payload + behind, 5);
            varint_of_u64_is_short(offset);
            varint_reads_back(offset as int, behind, 10);
            assert((source + behind).skip(varint(2).len() as int) =~= payload + behind);
        },
    }
    assert(read_source(source + behind) == Some((relocation.read_offset, source.len() as int)));

    assert(bytes.skip((first.len() + source.len()) as int) =~= behind);
    let unsigned = zigzag(relocation.addend as int);
    assert(0 <= unsigned <= u64::MAX);
    varint_of_u64_is_short(unsigned as u64);
    varint_reads_back(unsigned, rest, 10);
    assert(unzigzag(unsigned) == relocation.addend);
}

/// The two bytes and the three numbers at the start of `bytes` that tell of a workload, and how many
/// bytes they take.
#[verifier::opaque]
pub open spec fn read_workload(bytes: Seq<u8>) -> Option<(((u8, u8), u64, u64, u64), int)> {
    if bytes.len() < 2 {
        None
    } else {
        match read_u64(bytes.skip(2)) {
            Some((offset, first)) => match read_u64(bytes.skip(2 + first)) {
                Some((size, second)) => match read_u64(bytes.skip(2 + first + second)) {
                    Some((kernel_size, third)) => Some(
                        (
                            ((bytes[0], bytes[1]), offset, size, kernel_size),
                            2 + first + second + third,
                        ),
                    ),
                    None => None,
                },
                None => None,
            },
            None => None,
        }
    }
}

/// The two numbers at the start of `bytes`, and how many bytes they take.
#[verifier::opaque]
pub open spec fn read_bounds(bytes: Seq<u8>) -> Option<((u32, u32), int)> {
    match read_u32(bytes) {
        Some((bss, first)) => match read_u32(bytes.skip(first)) {
            Some((ebss, second)) => Some(((bss, ebss), first + second)),
            None => None,
        },
        None => None,
    }
}

/// What a core is told, at the start of `bytes`, and how many of them it takes.
#[verifier::opaque]
pub open spec fn read_core(bytes: Seq<u8>) -> Option<(CoreLaunchData, int)> {
    match read_u32(bytes) {
        Some((entry, first)) => if bytes.len() <= first {
            None
        } else if bytes[first] == 0 {
            Some((CoreLaunchData { entry, stack: None }, first + 1))
        } else if bytes[first] == 1 {
            match read_u32(bytes.skip(first + 1)) {
                Some((stack, second)) => Some(
                    (CoreLaunchData { entry, stack: Some(stack) }, first + 1 + second),
                ),
                None => None,
            }
        } else {
            None
        },
        None => None,
    }
}

/// What `count` cores are told, at the start of `bytes`, and how many of them it takes.
pub open spec fn read_cores(bytes: Seq<u8>, count: int) -> Option<(Seq<CoreLaunchData>, int)>
    decreases count,
{
    if count <= 0 {
        Some((seq![], 0))
    } else {
        match read_core(bytes) {
            Some((core, first)) => match read_cores(bytes.skip(first), count - 1) {
                Some((cores, others)) => Some((seq![core] + cores, first + others)),
                None => None,
            },
            None => None,
        }
    }
}

/// The two bytes and the two numbers at the start of `bytes` that tell of the data, and how many
/// bytes they take.
#[verifier::opaque]
pub open spec fn read_data(bytes: Seq<u8>) -> Option<(((u8, u8), u64, u32), int)> {
    if bytes.len() < 2 {
        None
    } else {
        match read_u64(bytes.skip(2)) {
            Some((offset, first)) => match read_u32(bytes.skip(2 + first)) {
                Some((flag, second)) => Some(
                    (((bytes[0], bytes[1]), offset, flag), 2 + first + second),
                ),
                None => None,
            },
            None => None,
        }
    }
}

/// The job at the start of `bytes`, and how many of them it takes.
pub open spec fn read_launch_data(bytes: Seq<u8>) -> Option<(LaunchData, int)> {
    match read_workload(bytes) {
        Some((workload, first)) => match read_bounds(bytes.skip(first)) {
            Some((bounds, second)) => match read_cores(bytes.skip(first + second), 5) {
                Some((cores, third)) => match read_data(bytes.skip(first + second + third)) {
                    Some((data, fourth)) => Some(
                        (
                            LaunchData {
                                workload_bank: workload.0,
                                workload_bank_offset: workload.1,
                                workload_bank_size: workload.2,
                                kernel_size: workload.3,
                                bss: bounds.0,
                                ebss: bounds.1,
                                brisc: cores[0],
                                ncrisc: cores[1],
                                trisc0: cores[2],
                                trisc1: cores[3],
                                trisc2: cores[4],
                                data_bank: data.0,
                                data_bank_offset: data.1,
                                flag: data.2,
                            },
                            first + second + third + fourth,
                        ),
                    ),
                    None => None,
                },
                None => None,
            },
            None => None,
        },
        None => None,
    }
}

proof fn lemma_u64_reads_back(value: u64, rest: Seq<u8>)
    ensures
        read_u64(varint(value as int) + rest) == Some((value, varint(value as int).len() as int)),
{
    varint_of_u64_is_short(value);
    varint_reads_back(value as int, rest, 10);
}

proof fn lemma_u32_reads_back(value: u32, rest: Seq<u8>)
    ensures
        read_u32(varint(value as int) + rest) == Some((value, varint(value as int).len() as int)),
{
    varint_of_u32_is_short(value);
    varint_reads_back(value as int, rest, 5);
}

proof fn lemma_workload_reads_back(
    bank: (u8, u8),
    offset: u64,
    size: u64,
    kernel_size: u64,
    rest: Seq<u8>,
)
    ensures
        ({
            let wire = seq![bank.0, bank.1] + varint(offset as int) + varint(size as int) + varint(
                kernel_size as int,
            );
            read_workload(wire + rest) == Some(
                ((bank, offset, size, kernel_size), wire.len() as int),
            )
        }),
{
    reveal(read_workload);
    let (a, b, c) = (varint(offset as int), varint(size as int), varint(kernel_size as int));
    let bytes = seq![bank.0, bank.1] + a + b + c + rest;
    assert(bytes.skip(2) =~= a + (b + (c + rest)));
    lemma_u64_reads_back(offset, b + (c + rest));
    assert(bytes.skip(2 + a.len() as int) =~= b + (c + rest));
    lemma_u64_reads_back(size, c + rest);
    assert(bytes.skip(2 + a.len() + b.len() as int) =~= c + rest);
    lemma_u64_reads_back(kernel_size, rest);
}

proof fn lemma_bounds_read_back(bss: u32, ebss: u32, rest: Seq<u8>)
    ensures
        ({
            let wire = varint(bss as int) + varint(ebss as int);
            read_bounds(wire + rest) == Some(((bss, ebss), wire.len() as int))
        }),
{
    reveal(read_bounds);
    let (a, b) = (varint(bss as int), varint(ebss as int));
    assert(a + b + rest =~= a + (b + rest));
    lemma_u32_reads_back(bss, b + rest);
    assert((a + b + rest).skip(a.len() as int) =~= b + rest);
    lemma_u32_reads_back(ebss, rest);
}

proof fn lemma_core_reads_back(core: CoreLaunchData, rest: Seq<u8>)
    ensures
        read_core(core_wire(core.entry, core.stack) + rest) == Some(
            (core, core_wire(core.entry, core.stack).len() as int),
        ),
{
    reveal(read_core);
    let entry = varint(core.entry as int);
    let bytes = core_wire(core.entry, core.stack) + rest;
    match core.stack {
        Some(stack) => {
            let payload = varint(stack as int);
            assert(bytes =~= entry + (seq![1u8] + payload + rest));
            lemma_u32_reads_back(core.entry, seq![1u8] + payload + rest);
            assert(bytes.skip(entry.len() as int + 1) =~= payload + rest);
            lemma_u32_reads_back(stack, rest);
        },
        None => {
            assert(bytes =~= entry + (seq![0u8] + rest));
            lemma_u32_reads_back(core.entry, seq![0u8] + rest);
        },
    }
}

/// What cores are told, on the wire.
spec fn cores_wire(cores: Seq<CoreLaunchData>) -> Seq<u8>
    decreases cores.len(),
{
    if cores.len() == 0 {
        seq![]
    } else {
        core_wire(cores[0].entry, cores[0].stack) + cores_wire(cores.skip(1))
    }
}

proof fn lemma_cores_read_back(cores: Seq<CoreLaunchData>, rest: Seq<u8>)
    ensures
        read_cores(cores_wire(cores) + rest, cores.len() as int) == Some(
            (cores, cores_wire(cores).len() as int),
        ),
    decreases cores.len(),
{
    if cores.len() > 0 {
        let first = core_wire(cores[0].entry, cores[0].stack);
        let others = cores_wire(cores.skip(1));
        assert(cores_wire(cores) + rest =~= first + (others + rest));
        lemma_core_reads_back(cores[0], others + rest);
        assert((cores_wire(cores) + rest).skip(first.len() as int) =~= others + rest);
        lemma_cores_read_back(cores.skip(1), rest);
        assert(seq![cores[0]] + cores.skip(1) =~= cores);
    } else {
        assert(cores =~= seq![]);
    }
}

proof fn lemma_data_reads_back(bank: (u8, u8), offset: u64, flag: u32, rest: Seq<u8>)
    ensures
        ({
            let wire = seq![bank.0, bank.1] + varint(offset as int) + varint(flag as int);
            read_data(wire + rest) == Some(((bank, offset, flag), wire.len() as int))
        }),
{
    reveal(read_data);
    let (a, b) = (varint(offset as int), varint(flag as int));
    let bytes = seq![bank.0, bank.1] + a + b + rest;
    assert(bytes.skip(2) =~= a + (b + rest));
    lemma_u64_reads_back(offset, b + rest);
    assert(bytes.skip(2 + a.len() as int) =~= b + rest);
    lemma_u32_reads_back(flag, rest);
}

/// The part of a job that tells of the workload.
#[verifier::opaque]
spec fn workload_part(data: LaunchData) -> Seq<u8> {
    seq![data.workload_bank.0, data.workload_bank.1] + varint(data.workload_bank_offset as int)
        + varint(data.workload_bank_size as int) + varint(data.kernel_size as int)
}

/// The part of a job that tells of the workload's zeroes.
#[verifier::opaque]
spec fn bounds_part(data: LaunchData) -> Seq<u8> {
    varint(data.bss as int) + varint(data.ebss as int)
}

spec fn core_list(data: LaunchData) -> Seq<CoreLaunchData> {
    seq![data.brisc, data.ncrisc, data.trisc0, data.trisc1, data.trisc2]
}

/// The part of a job that tells of the cores.
#[verifier::opaque]
spec fn cores_part(data: LaunchData) -> Seq<u8> {
    cores_wire(core_list(data))
}

/// The part of a job that tells of the data.
#[verifier::opaque]
spec fn data_part(data: LaunchData) -> Seq<u8> {
    seq![data.data_bank.0, data.data_bank.1] + varint(data.data_bank_offset as int) + varint(
        data.flag as int,
    )
}

proof fn lemma_launch_wire_parts(data: LaunchData)
    ensures
        launch_wire(data) == workload_part(data) + bounds_part(data) + cores_part(data) + data_part(
            data,
        ),
{
    reveal(workload_part);
    reveal(bounds_part);
    reveal(cores_part);
    reveal(data_part);
    lemma_five_cores(data.brisc, data.ncrisc, data.trisc0, data.trisc1, data.trisc2);
    lemma_grouping(
        workload_part(data),
        varint(data.bss as int),
        varint(data.ebss as int),
        (
            core_wire(data.brisc.entry, data.brisc.stack),
            core_wire(data.ncrisc.entry, data.ncrisc.stack),
            core_wire(data.trisc0.entry, data.trisc0.stack),
            core_wire(data.trisc1.entry, data.trisc1.stack),
            core_wire(data.trisc2.entry, data.trisc2.stack),
        ),
        seq![data.data_bank.0, data.data_bank.1],
        varint(data.data_bank_offset as int),
        varint(data.flag as int),
    );
}

proof fn lemma_parts_read_back(data: LaunchData, rest: Seq<u8>)
    ensures
        read_workload(workload_part(data) + rest) == Some(
            (
                (
                    data.workload_bank,
                    data.workload_bank_offset,
                    data.workload_bank_size,
                    data.kernel_size,
                ),
                workload_part(data).len() as int,
            ),
        ),
        read_bounds(bounds_part(data) + rest) == Some(
            ((data.bss, data.ebss), bounds_part(data).len() as int),
        ),
        read_cores(cores_part(data) + rest, 5) == Some(
            (core_list(data), cores_part(data).len() as int),
        ),
        read_data(data_part(data) + rest) == Some(
            ((data.data_bank, data.data_bank_offset, data.flag), data_part(data).len() as int),
        ),
{
    reveal(workload_part);
    reveal(bounds_part);
    reveal(cores_part);
    reveal(data_part);
    lemma_workload_reads_back(
        data.workload_bank,
        data.workload_bank_offset,
        data.workload_bank_size,
        data.kernel_size,
        rest,
    );
    lemma_bounds_read_back(data.bss, data.ebss, rest);
    lemma_cores_read_back(core_list(data), rest);
    lemma_data_reads_back(data.data_bank, data.data_bank_offset, data.flag, rest);
}

/// The firmware reads the job that the host wrote, whatever stands behind it.
pub proof fn launch_data_reads_back(data: LaunchData, rest: Seq<u8>)
    ensures
        read_launch_data(launch_wire(data) + rest) == Some((data, launch_wire(data).len() as int)),
{
    let (a, b, c, d) = (workload_part(data), bounds_part(data), cores_part(data), data_part(data));
    lemma_launch_wire_parts(data);
    lemma_parts(a, b, c, d, rest);
    lemma_parts_read_back(data, b + (c + (d + rest)));
    lemma_parts_read_back(data, c + (d + rest));
    lemma_parts_read_back(data, d + rest);
    lemma_parts_read_back(data, rest);
}

/// Pieces can be put together in any order of grouping.
proof fn lemma_grouping(
    workload: Seq<u8>,
    bss: Seq<u8>,
    ebss: Seq<u8>,
    cores: (Seq<u8>, Seq<u8>, Seq<u8>, Seq<u8>, Seq<u8>),
    bank: Seq<u8>,
    offset: Seq<u8>,
    flag: Seq<u8>,
)
    ensures
        workload + bss + ebss + cores.0 + cores.1 + cores.2 + cores.3 + cores.4 + bank + offset
            + flag == workload + (bss + ebss) + (cores.0 + cores.1 + cores.2 + cores.3 + cores.4)
            + (bank + offset + flag),
{
    assert(workload + bss + ebss =~= workload + (bss + ebss));
    let front = workload + (bss + ebss);
    assert(front + cores.0 + cores.1 + cores.2 + cores.3 + cores.4 =~= front + (cores.0 + cores.1
        + cores.2 + cores.3 + cores.4));
    let more = front + (cores.0 + cores.1 + cores.2 + cores.3 + cores.4);
    assert(more + bank + offset + flag =~= more + (bank + offset + flag));
}

/// Where each of four pieces starts.
proof fn lemma_parts(a: Seq<u8>, b: Seq<u8>, c: Seq<u8>, d: Seq<u8>, rest: Seq<u8>)
    ensures
        ({
            let bytes = a + b + c + d + rest;
            &&& bytes == a + (b + (c + (d + rest)))
            &&& bytes.skip(a.len() as int) == b + (c + (d + rest))
            &&& bytes.skip((a.len() + b.len()) as int) == c + (d + rest)
            &&& bytes.skip((a.len() + b.len() + c.len()) as int) == d + rest
        }),
{
    let bytes = a + b + c + d + rest;
    assert(bytes =~= a + (b + (c + (d + rest))));
    assert(bytes.skip(a.len() as int) =~= b + (c + (d + rest)));
    assert(bytes.skip((a.len() + b.len()) as int) =~= c + (d + rest));
    assert(bytes.skip((a.len() + b.len() + c.len()) as int) =~= d + rest);
}

proof fn lemma_five_cores(
    a: CoreLaunchData,
    b: CoreLaunchData,
    c: CoreLaunchData,
    d: CoreLaunchData,
    e: CoreLaunchData,
)
    ensures
        cores_wire(seq![a, b, c, d, e]) == core_wire(a.entry, a.stack) + core_wire(
            b.entry,
            b.stack,
        ) + core_wire(c.entry, c.stack) + core_wire(d.entry, d.stack) + core_wire(
            e.entry,
            e.stack,
        ),
{
    reveal_with_fuel(cores_wire, 6);
    let all = seq![a, b, c, d, e];
    assert(all.skip(1) =~= seq![b, c, d, e]);
    assert(seq![b, c, d, e].skip(1) =~= seq![c, d, e]);
    assert(seq![c, d, e].skip(1) =~= seq![d, e]);
    assert(seq![d, e].skip(1) =~= seq![e]);
    assert(seq![e].skip(1) =~= seq![]);
    assert(cores_wire(all) =~= core_wire(a.entry, a.stack) + core_wire(b.entry, b.stack)
        + core_wire(c.entry, c.stack) + core_wire(d.entry, d.stack) + core_wire(e.entry, e.stack));
}

} // verus!
