//! Computing a graph: the types of its tensors, how they are walked, and the kernels that compute
//! its nodes.

use vstd::prelude::*;

use crate::ggml::eltwise;
use crate::ggml::{GgmlOp, GgmlTensor, GgmlType};
use crate::workload;
use crate::workload::{OutputBuffer, WorkloadBuilder};

verus! {

pub struct Shape {}

/// What is known of a type.
pub struct GgmlTypeTraits(pub GgmlType);

/// The types that a kernel computes with.
#[derive(Clone, Copy, Debug, PartialEq, Eq, Structural)]
pub enum TtxTypes {
    F64,
    F32,
    I8,
    I16,
    I32,
    I64,
}

/// The type of tensors that hold elements of a kernel's type as they are.
pub open spec fn stored_as(ty: TtxTypes) -> GgmlType {
    match ty {
        TtxTypes::F64 => GgmlType::F64,
        TtxTypes::F32 => GgmlType::F32,
        TtxTypes::I8 => GgmlType::I8,
        TtxTypes::I16 => GgmlType::I16,
        TtxTypes::I32 => GgmlType::I32,
        TtxTypes::I64 => GgmlType::I64,
    }
}

/// How much a type counts where two meet: floats before integers, and wide before narrow.
pub open spec fn rank(ty: TtxTypes) -> int {
    match ty {
        TtxTypes::F64 => 5,
        TtxTypes::F32 => 4,
        TtxTypes::I64 => 3,
        TtxTypes::I32 => 2,
        TtxTypes::I16 => 1,
        TtxTypes::I8 => 0,
    }
}

/// The type that two meet in: the one that counts more.
pub open spec fn common_type(a: TtxTypes, b: TtxTypes) -> TtxTypes {
    if rank(a) >= rank(b) {
        a
    } else {
        b
    }
}

/// The name of a type in a kernel's source.
pub open spec fn element_name(ty: TtxTypes) -> Seq<char> {
    match ty {
        TtxTypes::F64 => "f64"@,
        TtxTypes::F32 => "f32"@,
        TtxTypes::I8 => "i8"@,
        TtxTypes::I16 => "i16"@,
        TtxTypes::I32 => "i32"@,
        TtxTypes::I64 => "i64"@,
    }
}

pub const FROM_SOURCE: &'static str = r#"
                (|input| {
                    input
                })
            "#;

pub const TO_SOURCE: &'static str = r#"
            (|input| {
                input
            })
        "#;

/// The source of a conversion between two types of a kernel.
pub open spec fn convert_source(from: TtxTypes, to: TtxTypes) -> Seq<char> {
    "(|input| "@ + (if from == to {
        "input"@
    } else {
        "input as "@ + element_name(to)
    }) + ")"@
}

impl TtxTypes {
    pub fn to_ggml(&self) -> (ty: GgmlType)
        ensures
            ty == stored_as(*self),
    {
        match self {
            TtxTypes::F64 => GgmlType::F64,
            TtxTypes::F32 => GgmlType::F32,
            TtxTypes::I8 => GgmlType::I8,
            TtxTypes::I16 => GgmlType::I16,
            TtxTypes::I32 => GgmlType::I32,
            TtxTypes::I64 => GgmlType::I64,
        }
    }

    /// What two operands of these types are converted to, and the type of the result.
    pub fn compat(&self, other: TtxTypes) -> (types: (Self, Self, Self))
        ensures
            types.0 == common_type(*self, other),
            types.1 == common_type(*self, other),
            types.2 == common_type(*self, other),
    {
        match (*self, other) {
            (TtxTypes::F64, _) | (_, TtxTypes::F64) => (TtxTypes::F64, TtxTypes::F64, TtxTypes::F64),
            (TtxTypes::F32, _) | (_, TtxTypes::F32) => (TtxTypes::F32, TtxTypes::F32, TtxTypes::F32),
            (TtxTypes::I64, _) | (_, TtxTypes::I64) => (TtxTypes::I64, TtxTypes::I64, TtxTypes::I64),
            (TtxTypes::I32, _) | (_, TtxTypes::I32) => (TtxTypes::I32, TtxTypes::I32, TtxTypes::I32),
            (TtxTypes::I16, _) | (_, TtxTypes::I16) => (TtxTypes::I16, TtxTypes::I16, TtxTypes::I16),
            (TtxTypes::I8, _) => (TtxTypes::I8, TtxTypes::I8, TtxTypes::I8),
        }
    }

    pub fn is_float_like(&self) -> (yes: bool)
        ensures
            yes == (self is F64 || self is F32),
    {
        match self {
            TtxTypes::F64 | TtxTypes::F32 => true,
            TtxTypes::I8 | TtxTypes::I16 | TtxTypes::I32 | TtxTypes::I64 => false,
        }
    }

    pub fn is_int_like(&self) -> (yes: bool)
        ensures
            yes == !(self is F64 || self is F32),
    {
        match self {
            TtxTypes::F64 | TtxTypes::F32 => false,
            TtxTypes::I8 | TtxTypes::I16 | TtxTypes::I32 | TtxTypes::I64 => true,
        }
    }

    /// The source that makes this type of a tensor's element, where it is stored as it is.
    pub fn gen_from(&self, input: GgmlType) -> (source: Option<String>)
        ensures
            match source {
                Some(source) => input == stored_as(*self) && source@ == FROM_SOURCE@,
                None => input != stored_as(*self),
            },
    {
        if input == self.to_ggml() {
            Some(FROM_SOURCE.to_string())
        } else {
            None
        }
    }

    /// The source that makes a tensor's element of this type, where it is stored as it is.
    pub fn gen_to(&self, output: GgmlType) -> (source: Option<String>)
        ensures
            match source {
                Some(source) => output == stored_as(*self) && source@ == TO_SOURCE@,
                None => output != stored_as(*self),
            },
    {
        if output == self.to_ggml() {
            Some(TO_SOURCE.to_string())
        } else {
            None
        }
    }

    /// The source that converts this type to another.
    pub fn gen_convert(&self, output: TtxTypes) -> (source: Option<String>)
        ensures
            source matches Some(source) && source@ == convert_source(*self, output),
    {
        let mut source = "(|input| ".to_string();
        if *self == output {
            source.append("input");
        } else {
            source.append("input as ");
            source.append(
                match output {
                    TtxTypes::F64 => "f64",
                    TtxTypes::F32 => "f32",
                    TtxTypes::I8 => "i8",
                    TtxTypes::I16 => "i16",
                    TtxTypes::I32 => "i32",
                    TtxTypes::I64 => "i64",
                },
            );
        }
        source.append(")");
        assert(source@ =~= convert_source(*self, output));
        Some(source)
    }
}

/// Whether a type holds integers.
pub open spec fn holds_integers(ty: GgmlType) -> bool {
    ty is I8 || ty is I16 || ty is I32 || ty is I64
}

/// The type that a kernel computes with for a tensor's type. All that is not an integer or a wide
/// float is computed with as `F32`.
pub open spec fn natural_type_of(ty: GgmlType) -> Option<TtxTypes> {
    match ty {
        GgmlType::F64 => Some(TtxTypes::F64),
        GgmlType::I8 => Some(TtxTypes::I8),
        GgmlType::I16 => Some(TtxTypes::I16),
        GgmlType::I32 => Some(TtxTypes::I32),
        GgmlType::I64 => Some(TtxTypes::I64),
        GgmlType::COUNT => None,
        _ => Some(TtxTypes::F32),
    }
}

impl GgmlTypeTraits {
    pub fn is_float_like(&self) -> (yes: bool)
        ensures
            yes == !(holds_integers(self.0) || self.0 is COUNT),
    {
        match self.0 {
            GgmlType::I8 | GgmlType::I16 | GgmlType::I32 | GgmlType::I64 | GgmlType::COUNT => false,
            _ => true,
        }
    }

    pub fn is_int_like(&self) -> (yes: bool)
        ensures
            yes == holds_integers(self.0),
    {
        match self.0 {
            GgmlType::I8 | GgmlType::I16 | GgmlType::I32 | GgmlType::I64 => true,
            _ => false,
        }
    }

    /// The type that a kernel computes with for tensors of this type.
    pub fn natural_type(&self) -> (ty: Option<TtxTypes>)
        ensures
            ty == natural_type_of(self.0),
    {
        match self.0 {
            GgmlType::F64 => Some(TtxTypes::F64),
            GgmlType::I8 => Some(TtxTypes::I8),
            GgmlType::I16 => Some(TtxTypes::I16),
            GgmlType::I32 => Some(TtxTypes::I32),
            GgmlType::I64 => Some(TtxTypes::I64),
            GgmlType::COUNT => None,
            _ => Some(TtxTypes::F32),
        }
    }
}

/// What two operands are converted to, and the type of the result.
pub open spec fn output_type(a: GgmlType, b: GgmlType) -> Option<TtxTypes> {
    match (natural_type_of(a), natural_type_of(b)) {
        (Some(a), Some(b)) => Some(common_type(a, b)),
        _ => None,
    }
}

/// What two operands are converted to, and the type of the result.
pub fn binary_op_calculate_output_type(a: GgmlType, b: GgmlType) -> (types: Option<
    (TtxTypes, TtxTypes, TtxTypes),
>)
    ensures
        types == match output_type(a, b) {
            Some(ty) => Some((ty, ty, ty)),
            None => None,
        },
{
    let a = GgmlTypeTraits(a);
    let b = GgmlTypeTraits(b);
    if let (Some(ttx_a), Some(ttx_b)) = (a.natural_type(), b.natural_type()) {
        Some(ttx_a.compat(ttx_b))
    } else {
        None
    }
}

/// Whether tensors of these types can be added: each is stored as the kernel computes with it.
pub open spec fn addable(a: GgmlType, b: GgmlType, dest: GgmlType) -> bool {
    match output_type(a, b) {
        Some(ty) => a == stored_as(ty) && b == stored_as(ty) && dest == stored_as(ty),
        None => false,
    }
}

/// Whether tensors of these types can be added.
pub fn add_type_check(a: GgmlType, b: GgmlType, dest: GgmlType) -> (supported: bool)
    ensures
        supported == addable(a, b, dest),
{
    if let Some((inter_a, inter_b, standard_type)) = binary_op_calculate_output_type(a, b) {
        inter_a.gen_from(a).is_some() && inter_a.gen_convert(standard_type).is_some()
            && inter_b.gen_from(b).is_some() && inter_b.gen_convert(standard_type).is_some()
            && standard_type.gen_to(dest).is_some()
    } else {
        false
    }
}

/// Whether the backend computes an operation. `operands` are the types of its two operands, which
/// an addition has.
pub fn supports_op(op: GgmlOp, operands: Option<(GgmlType, GgmlType)>, dest: GgmlType) -> (
    supported: bool)
    requires
        (op is Add || op is Add1) ==> operands is Some,
    ensures
        supported == match op {
            GgmlOp::Nothing => true,
            GgmlOp::Add | GgmlOp::Add1 => operands matches Some((a, b)) && addable(a, b, dest),
            GgmlOp::Other => false,
        },
{
    match op {
        GgmlOp::Nothing => true,
        GgmlOp::Add | GgmlOp::Add1 => match operands {
            Some((a, b)) => add_type_check(a, b, dest),
            None => false,
        },
        GgmlOp::Other => false,
    }
}

/// Which of the first `count` nodes of a graph are computed. A node may be missing.
pub open spec fn computed_nodes(nodes: Seq<Option<GgmlOp>>, count: int) -> Seq<usize>
    decreases count,
{
    if count <= 0 {
        seq![]
    } else {
        let before = computed_nodes(nodes, count - 1);
        match nodes[count - 1] {
            Some(GgmlOp::Add) | Some(GgmlOp::Add1) => before.push((count - 1) as usize),
            _ => before,
        }
    }
}

/// Which nodes of a graph are computed, in order.
pub fn compute(nodes: &[Option<GgmlOp>]) -> (computed: Vec<usize>)
    ensures
        computed@ == computed_nodes(nodes@, nodes@.len() as int),
{
    let mut computed: Vec<usize> = Vec::new();
    for i in 0..nodes.len()
        invariant
            computed@ == computed_nodes(nodes@, i as int),
    {
        match nodes[i] {
            Some(GgmlOp::Add) | Some(GgmlOp::Add1) => computed.push(i),
            _ => {},
        }
    }
    computed
}

/// A kernel that adds two tensors, and the bytes that it runs on.
pub struct Addition {
    pub kernel: WorkloadBuilder,
    pub output: OutputBuffer,
    pub pieces: eltwise::Pieces,
}

/// Whether the strides of a tensor without gaps can be told.
pub open spec fn packable(shape: Seq<i64>, type_size: usize) -> bool {
    &&& forall|dim: int| 0 <= dim < 4 ==> 0 <= #[trigger] shape[dim] <= usize::MAX
    &&& forall|dim: int|
        0 <= dim < 4 ==> #[trigger] eltwise::packed_stride(shape, type_size, dim) <= usize::MAX
    &&& eltwise::packed_stride(shape, type_size, 0) * (shape[0] as usize) <= usize::MAX
}

/// Whether the strides of a tensor without gaps can be told.
fn can_pack(shape: &[i64; 4], type_size: usize) -> (yes: bool)
    ensures
        yes == packable(shape@, type_size),
{
    let limit: u128 = usize::MAX as u128;
    let mut stride: u128 = type_size as u128;
    let mut dim: usize = 4;
    while dim > 0
        invariant
            dim <= 4,
            limit == usize::MAX,
            0 <= stride <= limit,
            stride == packed_total(shape@, type_size, dim as int),
            forall|d: int| dim <= d < 4 ==> 0 <= #[trigger] shape@[d] <= usize::MAX,
            forall|d: int|
                dim - 1 <= d < 4 ==> #[trigger] eltwise::packed_stride(shape@, type_size, d)
                    <= usize::MAX,
        decreases dim,
    {
        let size: i64 = shape[dim - 1];
        if size < 0 || size as u128 > limit {
            return false;
        }
        assert(0 <= stride * size <= u128::MAX) by (nonlinear_arith)
            requires
                0 <= stride <= u64::MAX,
                0 <= size <= i64::MAX,
        ;
        let next: u128 = stride * size as u128;
        proof {
            lemma_packed_total(shape@, type_size, dim - 1);
        }
        if next > limit {
            proof {
                if dim - 1 == 0 {
                    assert(!packable(shape@, type_size));
                } else {
                    assert(eltwise::packed_stride(shape@, type_size, dim - 2) > usize::MAX);
                }
            }
            return false;
        }
        dim = dim - 1;
        stride = next;
    }
    true
}

/// The size of a tensor without gaps along the dimensions from `dim` on, in bytes.
spec fn packed_total(shape: Seq<i64>, type_size: usize, dim: int) -> int {
    if dim >= 4 {
        type_size as int
    } else {
        eltwise::packed_stride(shape, type_size, dim) * (shape[dim] as usize)
    }
}

proof fn lemma_packed_total(shape: Seq<i64>, type_size: usize, dim: int)
    requires
        0 <= dim < 4,
    ensures
        packed_total(shape, type_size, dim + 1) == eltwise::packed_stride(shape, type_size, dim),
        dim > 0 ==> packed_total(shape, type_size, dim) == eltwise::packed_stride(
            shape,
            type_size,
            dim - 1,
        ),
{
}

/// The strides of a tensor without gaps.
pub open spec fn packed_strides(shape: Seq<i64>, type_size: usize) -> Seq<usize> {
    Seq::new(4, |dim: int| eltwise::packed_stride(shape, type_size, dim) as usize)
}

/// The innermost line of an addition; `names` are the offsets of the operands and of the result.
pub open spec fn add_line(names: Seq<Seq<char>>, ty: TtxTypes) -> Seq<char> {
    let convert = convert_source(ty, ty);
    "dest["@ + names[2] + "] = "@ + TO_SOURCE@ + "({ "@ + convert + "("@ + FROM_SOURCE@ + "(a["@
        + names[0] + "])) } + { "@ + convert + "("@ + FROM_SOURCE@ + "(b["@ + names[1]
        + "])) })"@
}

fn write_add_line(names: &[String], ty: TtxTypes) -> (line: String)
    requires
        names@.len() == 3,
    ensures
        line@ == add_line(workload::strings(names@), ty),
{
    let convert = match ty.gen_convert(ty) {
        Some(source) => source,
        None => String::new(),
    };
    let mut line = "dest[".to_string();
    line.append(names[2].as_str());
    line.append("] = ");
    line.append(TO_SOURCE);
    line.append("({ ");
    line.append(convert.as_str());
    line.append("(");
    line.append(FROM_SOURCE);
    line.append("(a[");
    line.append(names[0].as_str());
    line.append("])) } + { ");
    line.append(convert.as_str());
    line.append("(");
    line.append(FROM_SOURCE);
    line.append("(b[");
    line.append(names[1].as_str());
    line.append("])) })");
    line
}

/// The source of an addition: loops over the common shape, with the sum in the innermost.
pub open spec fn add_source(
    shape: Seq<i64>,
    a_size: usize,
    b_size: usize,
    dest_size: usize,
    ty: TtxTypes,
) -> Seq<char> {
    workload::join_lines(
        workload::zip_lines(
            shape,
            seq![
                packed_strides(shape, a_size),
                packed_strides(shape, b_size),
                packed_strides(shape, dest_size),
            ],
            add_line(workload::tensor_indexes(3), ty),
        ),
    )
}

/// Whether [`add`] can add two tensors.
pub open spec fn can_be_added(
    a: &GgmlTensor,
    b: &GgmlTensor,
    dest: GgmlType,
    a_size: usize,
    b_size: usize,
    dest_size: usize,
) -> bool {
    let shape = eltwise::common_shape(seq![a, b]);
    &&& eltwise::splittable(a, b, a_size, b_size, dest_size)
    &&& addable(a.type_, b.type_, dest)
    &&& packable(shape, a_size)
    &&& packable(shape, b_size)
    &&& packable(shape, dest_size)
}

/// Whether [`add`] can add two tensors.
pub fn can_add(
    a: &GgmlTensor,
    b: &GgmlTensor,
    dest: GgmlType,
    a_size: usize,
    b_size: usize,
    dest_size: usize,
) -> (yes: bool)
    ensures
        yes == can_be_added(a, b, dest, a_size, b_size, dest_size),
{
    if !add_type_check(a.type_, b.type_, dest) {
        return false;
    }
    if !eltwise::can_split(a, b, a_size, b_size, dest_size) {
        return false;
    }
    let tensors: [&GgmlTensor; 2] = [a, b];
    assert(tensors@ =~= seq![a, b]);
    let (shape, _) = eltwise::broadcast_tensors(tensors.as_slice());
    can_pack(&shape, a_size) && can_pack(&shape, b_size) && can_pack(&shape, dest_size)
}

/// The kernel that adds two tensors into `dest`, and their bytes in pieces. The sizes are those of
/// an element of each operand and of the result.
pub fn add(
    available_space: u64,
    a: &GgmlTensor,
    b: &GgmlTensor,
    dest: GgmlType,
    a_size: usize,
    b_size: usize,
    dest_size: usize,
) -> (addition: Addition)
    requires
        can_be_added(a, b, dest, a_size, b_size, dest_size),
    ensures
        ({
            let count = eltwise::piece_count(a_size, b_size, dest_size);
            let kernel = addition.kernel;
            &&& !kernel.use_local_cache
            &&& kernel.available_space == available_space
            &&& workload::strings(kernel.inputs@) == seq!["a"@, "b"@]
            &&& kernel.outputs@ == Seq::<OutputBuffer>::empty()
            &&& kernel.global@ == workload::input_declaration("a"@, count * a_size)
                + workload::input_declaration("b"@, count * b_size)
                + workload::output_declarations("dest"@, count * dest_size, 1)
            &&& kernel.brisc@ == add_source(
                eltwise::common_shape(seq![a, b]),
                a_size,
                b_size,
                dest_size,
                output_type(a.type_, b.type_)->0,
            )
            &&& kernel.ncrisc@ == ""@
            &&& kernel.trisc0@ == ""@
            &&& kernel.trisc1@ == ""@
            &&& kernel.trisc2@ == ""@
            &&& addition.output.name@ == "dest"@
            &&& addition.output.size == count * dest_size
            &&& addition.output.count == 1
            &&& addition.pieces.shape@ == eltwise::common_shape(seq![a, b])
            &&& addition.pieces.elem_count == count
            &&& pieces_hold(addition.pieces, a, b, a_size, b_size, count)
        }),
{
    let pieces = eltwise::eltwise_split(a, b, a_size, b_size, dest_size);
    let elem_count: usize = pieces.elem_count;
    proof {
        let total = a_size + b_size + dest_size;
        let count = elem_count as int;
        vstd::arithmetic::div_mod::lemma_fundamental_div_mod(eltwise::PIECE_SIZE as int, total);
        vstd::arithmetic::div_mod::lemma_mod_bound(eltwise::PIECE_SIZE as int, total);
        let size = eltwise::PIECE_SIZE as int;
        assert(0 <= count * a_size <= size && 0 <= count * b_size <= size && 0 <= count * dest_size
            <= size) by (nonlinear_arith)
            requires
                size == total * count + size % total,
                0 <= size % total,
                total == a_size + b_size + dest_size,
                0 <= count,
        ;
    }
    let mut kernel = WorkloadBuilder::default();
    kernel.available_space = available_space;
    kernel.input_buffer("a", elem_count * a_size);
    kernel.input_buffer("b", elem_count * b_size);
    let output = kernel.output_buffer("dest", elem_count * dest_size, 1);
    proof {
        reveal_strlit("");
        assert(kernel.global@ =~= workload::input_declaration("a"@, elem_count * a_size)
            + workload::input_declaration("b"@, elem_count * b_size)
            + workload::output_declarations("dest"@, elem_count * dest_size, 1));
        assert(workload::strings(kernel.inputs@) =~= seq!["a"@, "b"@]);
    }

    let a_strides = eltwise::default_strides_for_shape(pieces.shape, a_size);
    let b_strides = eltwise::default_strides_for_shape(pieces.shape, b_size);
    let dest_strides = eltwise::default_strides_for_shape(pieces.shape, dest_size);
    let strides: [&[usize]; 3] = [
        a_strides.as_slice(),
        b_strides.as_slice(),
        dest_strides.as_slice(),
    ];
    let ty = match binary_op_calculate_output_type(a.type_, b.type_) {
        Some((_, _, ty)) => ty,
        None => TtxTypes::F32,
    };
    proof {
        let shape = pieces.shape@;
        assert(a_strides@ =~= packed_strides(shape, a_size));
        assert(b_strides@ =~= packed_strides(shape, b_size));
        assert(dest_strides@ =~= packed_strides(shape, dest_size));
        assert(workload::stride_views(strides@) =~= seq![
            packed_strides(shape, a_size),
            packed_strides(shape, b_size),
            packed_strides(shape, dest_size),
        ]);
    }
    let line = |names: &[String]| -> (line: String)
        requires
            names@.len() == 3,
        ensures
            line@ == add_line(workload::strings(names@), ty),
        { write_add_line(names, ty) };
    assert forall|names: &[String]| workload::strings(names@) == workload::tensor_indexes(
        3,
    ) implies #[trigger] call_requires(line, (names,)) by {
        assert(workload::strings(names@).len() == names@.len());
    }
    let source = kernel.iterate_zip(pieces.shape.as_slice(), strides.as_slice(), line);
    kernel.brisc = source;
    Addition { kernel, output, pieces }
}

/// Whether these are the bytes of two tensors, in pieces of `count` elements.
pub open spec fn pieces_hold(
    pieces: eltwise::Pieces,
    a: &GgmlTensor,
    b: &GgmlTensor,
    a_size: usize,
    b_size: usize,
    count: int,
) -> bool {
    &&& pieces.buffers@.len() == eltwise::piece_buffers(seq![a, b], 0, a_size, count).len()
    &&& forall|j: int|
        0 <= j < pieces.buffers@.len() ==> {
            &&& (#[trigger] pieces.buffers@[j]).0@ == eltwise::piece_buffers(
                seq![a, b],
                0,
                a_size,
                count,
            )[j]
            &&& pieces.buffers@[j].1@ == eltwise::piece_buffers(seq![a, b], 1, b_size, count)[j]
        }
}

/// The type that two meet in does not depend on their order, is one of them, and counts no less than
/// either.
pub proof fn types_meet_in_the_larger(a: TtxTypes, b: TtxTypes)
    ensures
        common_type(a, b) == common_type(b, a),
        common_type(a, a) == a,
        common_type(a, b) == a || common_type(a, b) == b,
        rank(common_type(a, b)) >= rank(a),
        rank(common_type(a, b)) >= rank(b),
{
}

/// A kernel computes with integers exactly for the tensors that hold integers, and computes with
/// what is stored as it is without a change of type.
pub proof fn natural_types_keep_their_kind(ty: GgmlType, computed: TtxTypes)
    ensures
        natural_type_of(ty) is None <==> ty is COUNT,
        natural_type_of(ty) == Some(computed) ==> (holds_integers(ty) <==> !(computed is F64
            || computed is F32)),
        natural_type_of(stored_as(computed)) == Some(computed),
{
}

/// Tensors can be added exactly if both operands and the result have one type, and this is one that
/// a kernel computes with.
pub proof fn additions_have_one_type(a: GgmlType, b: GgmlType, dest: GgmlType)
    ensures
        addable(a, b, dest) <==> a == b && b == dest && exists|ty: TtxTypes|
            #[trigger] stored_as(ty) == a,
{
    if a == b && b == dest && exists|ty: TtxTypes| #[trigger] stored_as(ty) == a {
        let ty = choose|ty: TtxTypes| #[trigger] stored_as(ty) == a;
        natural_types_keep_their_kind(a, ty);
        assert(output_type(a, b) == Some(ty));
    }
}

} // verus!
