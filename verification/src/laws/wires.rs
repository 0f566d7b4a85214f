//! What host and firmware send each other, byte by byte.

use vstd::prelude::*;

use crate::launch_data::{CoreLaunchData, LaunchData, LaunchRequest};
use crate::relocate::{KernelRelocation, RelocationRead};
use crate::wire;

verus! {

/// What bytes say that carry seven bits each, the lowest first.
pub open spec fn seven_bits_each(bytes: Seq<u8>) -> int
    decreases bytes.len(),
{
    if bytes.len() == 0 {
        0
    } else {
        bytes[0] % 128 + 128 * seven_bits_each(bytes.skip(1))
    }
}

/// Whether bytes are a number: all but the last have their high bit set, the last is not a zero that
/// could be left out, and they say the number.
pub open spec fn is_number(bytes: Seq<u8>, value: int) -> bool {
    &&& bytes.len() > 0
    &&& forall|i: int| 0 <= i < bytes.len() - 1 ==> #[trigger] bytes[i] >= 128
    &&& bytes.last() < 128
    &&& bytes.len() > 1 ==> bytes.last() > 0
    &&& seven_bits_each(bytes) == value
}

/// A number is sent with seven bits to a byte, the lowest first, in as few bytes as it takes.
pub proof fn numbers_take_seven_bits_a_byte(value: int)
    requires
        0 <= value,
    ensures
        is_number(wire::varint(value), value),
    decreases value,
{
    let bytes = wire::varint(value);
    if value < 128 {
        assert(bytes =~= seq![value as u8]);
        assert(bytes.skip(1).len() == 0);
        assert(seven_bits_each(bytes.skip(1)) == 0);
    } else {
        let rest = wire::varint(value / 128);
        numbers_take_seven_bits_a_byte(value / 128);
        assert(bytes.skip(1) =~= rest);
        assert(bytes[0] == 128 + value % 128);
        assert(bytes.last() == rest.last());
        assert forall|i: int| 0 <= i < bytes.len() - 1 implies #[trigger] bytes[i] >= 128 by {
            if i > 0 {
                assert(bytes[i] == rest[i - 1]);
            }
        }
        if rest.len() == 1 {
            assert(seven_bits_each(rest) == rest[0] % 128 + 128 * seven_bits_each(rest.skip(1)));
            assert(seven_bits_each(rest.skip(1)) == 0);
        }
    }
}

/// A signed number is sent as twice its size, less one where it is negative, so that the lowest bit
/// tells the sign.
pub proof fn the_lowest_bit_tells_the_sign(value: int)
    ensures
        ({
            let sent = wire::zigzag(value);
            &&& 0 <= sent
            &&& sent % 2 == 0 <==> value >= 0
            &&& value >= 0 ==> sent == value + value
            &&& value < 0 ==> sent + 1 == -(value + value)
        }),
{
}

/// One thing that is sent: a byte as it is, or a number.
pub enum Field {
    Byte { value: u8 },
    Number { value: int },
}

/// Whether bytes hold these fields, one behind the other and nothing else.
pub open spec fn reads_as(bytes: Seq<u8>, fields: Seq<Field>) -> bool
    decreases fields.len(),
{
    if fields.len() == 0 {
        bytes.len() == 0
    } else {
        match fields[0] {
            Field::Byte { value } => bytes.len() > 0 && bytes[0] == value && reads_as(
                bytes.skip(1),
                fields.skip(1),
            ),
            Field::Number { value } => exists|len: int|
                0 <= len <= bytes.len() && is_number(#[trigger] bytes.take(len), value)
                    && reads_as(bytes.skip(len), fields.skip(1)),
        }
    }
}

proof fn lemma_reads_in_turn(a: Seq<u8>, first: Seq<Field>, b: Seq<u8>, second: Seq<Field>)
    requires
        reads_as(a, first),
        reads_as(b, second),
    ensures
        reads_as(a + b, first + second),
    decreases first.len(),
{
    let whole = a + b;
    let fields = first + second;
    if first.len() == 0 {
        assert(whole =~= b);
        assert(fields =~= second);
    } else {
        assert(fields[0] == first[0]);
        assert(fields.skip(1) =~= first.skip(1) + second);
        match first[0] {
            Field::Byte { value } => {
                assert(whole.skip(1) =~= a.skip(1) + b);
                lemma_reads_in_turn(a.skip(1), first.skip(1), b, second);
            },
            Field::Number { value } => {
                let len = choose|len: int|
                    0 <= len <= a.len() && is_number(#[trigger] a.take(len), value) && reads_as(
                        a.skip(len),
                        first.skip(1),
                    );
                assert(whole.take(len) =~= a.take(len));
                assert(whole.skip(len) =~= a.skip(len) + b);
                lemma_reads_in_turn(a.skip(len), first.skip(1), b, second);
            },
        }
    }
}

proof fn lemma_number(value: int)
    requires
        0 <= value,
    ensures
        reads_as(wire::varint(value), seq![Field::Number { value }]),
{
    let bytes = wire::varint(value);
    let fields = seq![Field::Number { value }];
    numbers_take_seven_bits_a_byte(value);
    assert(bytes.take(bytes.len() as int) =~= bytes);
    assert(bytes.skip(bytes.len() as int).len() == 0);
    assert(fields.skip(1).len() == 0);
    assert(reads_as(bytes.skip(bytes.len() as int), fields.skip(1)));
}

proof fn lemma_byte(value: u8)
    ensures
        reads_as(seq![value], seq![Field::Byte { value }]),
{
    let fields = seq![Field::Byte { value }];
    assert(fields.skip(1).len() == 0);
    assert(seq![value].skip(1).len() == 0);
    assert(reads_as(seq![value].skip(1), fields.skip(1)));
}

/// One more number behind what was sent.
proof fn lemma_then_number(bytes: Seq<u8>, fields: Seq<Field>, value: int)
    requires
        reads_as(bytes, fields),
        0 <= value,
    ensures
        reads_as(bytes + wire::varint(value), fields.push(Field::Number { value })),
{
    lemma_number(value);
    lemma_reads_in_turn(bytes, fields, wire::varint(value), seq![Field::Number { value }]);
    assert(fields + seq![Field::Number { value }] =~= fields.push(Field::Number { value }));
}

/// One more byte behind what was sent.
proof fn lemma_then_byte(bytes: Seq<u8>, fields: Seq<Field>, value: u8)
    requires
        reads_as(bytes, fields),
    ensures
        reads_as(bytes.push(value), fields.push(Field::Byte { value })),
{
    lemma_byte(value);
    lemma_reads_in_turn(bytes, fields, seq![value], seq![Field::Byte { value }]);
    assert(bytes + seq![value] =~= bytes.push(value));
    assert(fields + seq![Field::Byte { value }] =~= fields.push(Field::Byte { value }));
}

/// What is sent of where a relocation reads: which kind it is, and what it carries.
pub open spec fn source_fields(source: RelocationRead) -> Seq<Field> {
    match source {
        RelocationRead::Base32 => seq![Field::Number { value: 0 }],
        RelocationRead::SymbolValue32(value) => seq![
            Field::Number { value: 1 },
            Field::Number { value: value as int },
        ],
        RelocationRead::Offset(offset) => seq![
            Field::Number { value: 2 },
            Field::Number { value: offset as int },
        ],
    }
}

/// A relocation is sent as where it writes, where it reads, and what is added, in this order.
pub proof fn a_relocation_is_sent_in_order(relocation: KernelRelocation)
    ensures
        reads_as(
            wire::relocation_wire(relocation),
            seq![Field::Number { value: relocation.write_offset as int }] + source_fields(
                relocation.read_offset,
            ) + seq![
                Field::Number {
                    value: if relocation.addend < 0 {
                        -2 * relocation.addend - 1
                    } else {
                        2 * relocation.addend
                    },
                },
            ],
        ),
{
    let addend = wire::zigzag(relocation.addend as int);
    let source = match relocation.read_offset {
        RelocationRead::Base32 => wire::varint(0),
        RelocationRead::SymbolValue32(value) => wire::varint(1) + wire::varint(value as int),
        RelocationRead::Offset(offset) => wire::varint(2) + wire::varint(offset as int),
    };
    lemma_number(relocation.write_offset as int);
    match relocation.read_offset {
        RelocationRead::Base32 => {
            lemma_number(0);
        },
        RelocationRead::SymbolValue32(value) => {
            lemma_number(1);
            lemma_then_number(wire::varint(1), seq![Field::Number { value: 1 }], value as int);
            assert(seq![Field::Number { value: 1 }].push(Field::Number { value: value as int })
                =~= source_fields(relocation.read_offset));
        },
        RelocationRead::Offset(offset) => {
            lemma_number(2);
            lemma_then_number(wire::varint(2), seq![Field::Number { value: 2 }], offset as int);
            assert(seq![Field::Number { value: 2 }].push(Field::Number { value: offset as int })
                =~= source_fields(relocation.read_offset));
        },
    }
    let first = seq![Field::Number { value: relocation.write_offset as int }];
    lemma_reads_in_turn(
        wire::varint(relocation.write_offset as int),
        first,
        source,
        source_fields(relocation.read_offset),
    );
    lemma_number(addend);
    lemma_reads_in_turn(
        wire::varint(relocation.write_offset as int) + source,
        first + source_fields(relocation.read_offset),
        wire::varint(addend),
        seq![Field::Number { value: addend }],
    );
}

/// What is sent of what a core is told: where it starts, whether it gets a stack of its own, and
/// where that is.
pub open spec fn core_fields(core: CoreLaunchData) -> Seq<Field> {
    match core.stack {
        Some(stack) => seq![
            Field::Number { value: core.entry as int },
            Field::Byte { value: 1 },
            Field::Number { value: stack as int },
        ],
        None => seq![Field::Number { value: core.entry as int }, Field::Byte { value: 0 }],
    }
}

proof fn lemma_core(core: CoreLaunchData)
    ensures
        reads_as(wire::core_wire(core.entry, core.stack), core_fields(core)),
{
    let entry = wire::varint(core.entry as int);
    let first = seq![Field::Number { value: core.entry as int }];
    lemma_number(core.entry as int);
    match core.stack {
        Some(stack) => {
            lemma_then_byte(entry, first, 1);
            lemma_then_number(
                entry.push(1u8),
                first.push(Field::Byte { value: 1 }),
                stack as int,
            );
            assert(wire::core_wire(core.entry, core.stack) =~= entry.push(1u8) + wire::varint(
                stack as int,
            ));
            assert(core_fields(core) =~= first.push(Field::Byte { value: 1 }).push(
                Field::Number { value: stack as int },
            ));
        },
        None => {
            lemma_then_byte(entry, first, 0);
            assert(wire::core_wire(core.entry, core.stack) =~= entry.push(0u8));
            assert(core_fields(core) =~= first.push(Field::Byte { value: 0 }));
        },
    }
}

/// What is sent of where a workload lies.
pub open spec fn place_fields(job: LaunchData) -> Seq<Field> {
    seq![
        Field::Byte { value: job.workload_bank.0 },
        Field::Byte { value: job.workload_bank.1 },
        Field::Number { value: job.workload_bank_offset as int },
        Field::Number { value: job.workload_bank_size as int },
        Field::Number { value: job.kernel_size as int },
        Field::Number { value: job.bss as int },
        Field::Number { value: job.ebss as int },
    ]
}

/// What is sent of where the data of a job lies, and the flag that tells of it.
pub open spec fn data_fields(job: LaunchData) -> Seq<Field> {
    seq![
        Field::Byte { value: job.data_bank.0 },
        Field::Byte { value: job.data_bank.1 },
        Field::Number { value: job.data_bank_offset as int },
        Field::Number { value: job.flag as int },
    ]
}

proof fn lemma_place(job: LaunchData) -> (bytes: Seq<u8>)
    ensures
        bytes == seq![job.workload_bank.0, job.workload_bank.1] + wire::varint(
            job.workload_bank_offset as int,
        ) + wire::varint(job.workload_bank_size as int) + wire::varint(job.kernel_size as int)
            + wire::varint(job.bss as int) + wire::varint(job.ebss as int),
        reads_as(bytes, place_fields(job)),
{
    let b0 = seq![job.workload_bank.0];
    let f0 = seq![Field::Byte { value: job.workload_bank.0 }];
    lemma_byte(job.workload_bank.0);
    lemma_then_byte(b0, f0, job.workload_bank.1);
    let b1 = b0.push(job.workload_bank.1);
    let f1 = f0.push(Field::Byte { value: job.workload_bank.1 });
    assert(b1 =~= seq![job.workload_bank.0, job.workload_bank.1]);
    let (n2, n3, n4) = (
        job.workload_bank_offset as int,
        job.workload_bank_size as int,
        job.kernel_size as int,
    );
    let (n5, n6) = (job.bss as int, job.ebss as int);
    lemma_then_number(b1, f1, n2);
    let b2 = b1 + wire::varint(n2);
    let f2 = f1.push(Field::Number { value: n2 });
    lemma_then_number(b2, f2, n3);
    let b3 = b2 + wire::varint(n3);
    let f3 = f2.push(Field::Number { value: n3 });
    lemma_then_number(b3, f3, n4);
    let b4 = b3 + wire::varint(n4);
    let f4 = f3.push(Field::Number { value: n4 });
    lemma_then_number(b4, f4, n5);
    let b5 = b4 + wire::varint(n5);
    let f5 = f4.push(Field::Number { value: n5 });
    lemma_then_number(b5, f5, n6);
    assert(f5.push(Field::Number { value: n6 }) =~= place_fields(job));
    b5 + wire::varint(n6)
}

proof fn lemma_data(job: LaunchData) -> (bytes: Seq<u8>)
    ensures
        bytes == seq![job.data_bank.0, job.data_bank.1] + wire::varint(job.data_bank_offset as int)
            + wire::varint(job.flag as int),
        reads_as(bytes, data_fields(job)),
{
    let b0 = seq![job.data_bank.0];
    let f0 = seq![Field::Byte { value: job.data_bank.0 }];
    lemma_byte(job.data_bank.0);
    lemma_then_byte(b0, f0, job.data_bank.1);
    let b1 = b0.push(job.data_bank.1);
    let f1 = f0.push(Field::Byte { value: job.data_bank.1 });
    assert(b1 =~= seq![job.data_bank.0, job.data_bank.1]);
    let (n2, n3) = (job.data_bank_offset as int, job.flag as int);
    lemma_then_number(b1, f1, n2);
    let b2 = b1 + wire::varint(n2);
    let f2 = f1.push(Field::Number { value: n2 });
    lemma_then_number(b2, f2, n3);
    assert(f2.push(Field::Number { value: n3 }) =~= data_fields(job));
    b2 + wire::varint(n3)
}

/// A job is sent as where its workload lies, what each core is told, in the order of the cores, and
/// where its data lies.
pub proof fn a_job_is_sent_in_order(job: LaunchData)
    ensures
        reads_as(
            wire::launch_wire(job),
            place_fields(job) + core_fields(job.brisc) + core_fields(job.ncrisc) + core_fields(
                job.trisc0,
            ) + core_fields(job.trisc1) + core_fields(job.trisc2) + data_fields(job),
        ),
{
    let place = lemma_place(job);
    let data = lemma_data(job);
    let (c0, c1, c2, c3, c4) = (job.brisc, job.ncrisc, job.trisc0, job.trisc1, job.trisc2);
    let (w0, w1, w2, w3, w4) = (
        wire::core_wire(c0.entry, c0.stack),
        wire::core_wire(c1.entry, c1.stack),
        wire::core_wire(c2.entry, c2.stack),
        wire::core_wire(c3.entry, c3.stack),
        wire::core_wire(c4.entry, c4.stack),
    );
    let (f0, f1, f2, f3, f4) = (
        core_fields(c0),
        core_fields(c1),
        core_fields(c2),
        core_fields(c3),
        core_fields(c4),
    );
    lemma_core(c0);
    lemma_core(c1);
    lemma_core(c2);
    lemma_core(c3);
    lemma_core(c4);
    let fields = place_fields(job);
    lemma_reads_in_turn(place, fields, w0, f0);
    lemma_reads_in_turn(place + w0, fields + f0, w1, f1);
    lemma_reads_in_turn(place + w0 + w1, fields + f0 + f1, w2, f2);
    lemma_reads_in_turn(place + w0 + w1 + w2, fields + f0 + f1 + f2, w3, f3);
    lemma_reads_in_turn(place + w0 + w1 + w2 + w3, fields + f0 + f1 + f2 + f3, w4, f4);
    let cores = place + w0 + w1 + w2 + w3 + w4;
    lemma_reads_in_turn(cores, fields + f0 + f1 + f2 + f3 + f4, data, data_fields(job));
    let bank = seq![job.data_bank.0, job.data_bank.1];
    let (n2, n3) = (wire::varint(job.data_bank_offset as int), wire::varint(job.flag as int));
    lemma_end(cores, bank, n2, n3);
}

proof fn lemma_end(a: Seq<u8>, b: Seq<u8>, c: Seq<u8>, d: Seq<u8>)
    ensures
        a + b + c + d == a + (b + c + d),
{
    assert(a + b + c + d =~= a + (b + c + d));
}

/// A request is sent as a byte that tells that there is one, where the core wants to be told of a
/// job, and where the job is to be loaded.
pub proof fn a_request_is_sent_in_order(request: LaunchRequest)
    ensures
        reads_as(
            wire::request_wire(request),
            seq![
                Field::Byte { value: 1 },
                Field::Number { value: request.job_request_addr as int },
                Field::Number { value: request.job_offset as int },
            ],
        ),
{
    let (n1, n2) = (request.job_request_addr as int, request.job_offset as int);
    let f0 = seq![Field::Byte { value: 1 }];
    lemma_byte(1);
    lemma_then_number(seq![1u8], f0, n1);
    let f1 = f0.push(Field::Number { value: n1 });
    lemma_then_number(seq![1u8] + wire::varint(n1), f1, n2);
    assert(f1.push(Field::Number { value: n2 }) =~= seq![
        Field::Byte { value: 1 },
        Field::Number { value: n1 },
        Field::Number { value: n2 },
    ]);
}

} // verus!
