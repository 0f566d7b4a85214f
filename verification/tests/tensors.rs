use ttx_runtime::ggml::compute_graph;
use ttx_runtime::ggml::compute_graph::{GgmlTypeTraits, TtxTypes};
use ttx_runtime::ggml::device;
use ttx_runtime::ggml::eltwise;
use ttx_runtime::ggml::walk;
use ttx_runtime::ggml::{GgmlOp, GgmlTensor, GgmlType};

const KERNEL_TYPES: [TtxTypes; 6] =
    [TtxTypes::F64, TtxTypes::F32, TtxTypes::I8, TtxTypes::I16, TtxTypes::I32, TtxTypes::I64];

fn tensor(type_: GgmlType, ne: [i64; 4], nb: [usize; 4], data: Vec<u8>) -> GgmlTensor {
    GgmlTensor { type_, ne, nb, data }
}

#[test]
fn types_meet_in_the_one_that_counts_more() {
    let order =
        [TtxTypes::I8, TtxTypes::I16, TtxTypes::I32, TtxTypes::I64, TtxTypes::F32, TtxTypes::F64];
    for (i, a) in order.iter().enumerate() {
        for (j, b) in order.iter().enumerate() {
            let common = order[i.max(j)];
            assert_eq!(a.compat(*b), (common, common, common));
        }
    }
}

#[test]
fn kernel_types_are_floats_or_integers() {
    for ty in KERNEL_TYPES {
        assert_ne!(ty.is_float_like(), ty.is_int_like());
        assert_eq!(GgmlTypeTraits(ty.to_ggml()).natural_type(), Some(ty));
        assert_eq!(GgmlTypeTraits(ty.to_ggml()).is_int_like(), ty.is_int_like());
    }
    assert!(TtxTypes::F64.is_float_like() && TtxTypes::I8.is_int_like());
}

#[test]
fn tensor_types_have_natural_types() {
    for ty in [GgmlType::F16, GgmlType::Q4_0, GgmlType::IQ1_M, GgmlType::BF16, GgmlType::MXFP4] {
        assert_eq!(GgmlTypeTraits(ty).natural_type(), Some(TtxTypes::F32));
        assert!(GgmlTypeTraits(ty).is_float_like());
        assert!(!GgmlTypeTraits(ty).is_int_like());
    }
    assert_eq!(GgmlTypeTraits(GgmlType::F64).natural_type(), Some(TtxTypes::F64));
    assert_eq!(GgmlTypeTraits(GgmlType::I16).natural_type(), Some(TtxTypes::I16));
    assert_eq!(GgmlTypeTraits(GgmlType::COUNT).natural_type(), None);
    assert!(!GgmlTypeTraits(GgmlType::COUNT).is_float_like());
    assert!(!GgmlTypeTraits(GgmlType::COUNT).is_int_like());
}

#[test]
fn conversions_are_generated() {
    let from = "\n                (|input| {\n                    input\n                })\n            ";
    assert_eq!(TtxTypes::F32.gen_from(GgmlType::F32).as_deref(), Some(from));
    assert_eq!(TtxTypes::F32.gen_from(GgmlType::F16), None);
    assert_eq!(TtxTypes::I8.gen_from(GgmlType::I16), None);
    let to = "\n            (|input| {\n                input\n            })\n        ";
    assert_eq!(TtxTypes::I64.gen_to(GgmlType::I64).as_deref(), Some(to));
    assert_eq!(TtxTypes::I64.gen_to(GgmlType::F64), None);
    assert_eq!(TtxTypes::I8.gen_convert(TtxTypes::I8).as_deref(), Some("(|input| input)"));
    for (ty, name) in KERNEL_TYPES.iter().zip(["f64", "f32", "i8", "i16", "i32", "i64"]) {
        let other = if *ty == TtxTypes::F64 { TtxTypes::I8 } else { TtxTypes::F64 };
        assert_eq!(other.gen_convert(*ty), Some(format!("(|input| input as {name})")));
    }
}

#[test]
fn results_have_a_type() {
    let ty = TtxTypes::F32;
    assert_eq!(
        compute_graph::binary_op_calculate_output_type(GgmlType::Q8_0, GgmlType::I64),
        Some((ty, ty, ty))
    );
    assert_eq!(compute_graph::binary_op_calculate_output_type(GgmlType::COUNT, GgmlType::I64), None);
    assert_eq!(compute_graph::binary_op_calculate_output_type(GgmlType::I64, GgmlType::COUNT), None);
}

#[test]
fn additions_are_supported_for_one_type() {
    for ty in KERNEL_TYPES {
        let ty = ty.to_ggml();
        assert!(compute_graph::add_type_check(ty, ty, ty));
        assert!(compute_graph::supports_op(GgmlOp::Add, Some((ty, ty)), ty));
        assert!(compute_graph::supports_op(GgmlOp::Add1, Some((ty, ty)), ty));
        assert!(!compute_graph::supports_op(GgmlOp::Other, Some((ty, ty)), ty));
    }
    assert!(!compute_graph::add_type_check(GgmlType::F16, GgmlType::F16, GgmlType::F16));
    assert!(!compute_graph::add_type_check(GgmlType::F32, GgmlType::F32, GgmlType::F64));
    assert!(!compute_graph::add_type_check(GgmlType::F32, GgmlType::I32, GgmlType::F32));
    assert!(!compute_graph::add_type_check(GgmlType::COUNT, GgmlType::F32, GgmlType::F32));
    assert!(compute_graph::supports_op(GgmlOp::Nothing, None, GgmlType::COUNT));
}

#[test]
fn additions_of_a_graph_are_computed() {
    let nodes = [Some(GgmlOp::Add), None, Some(GgmlOp::Nothing), Some(GgmlOp::Add1), Some(GgmlOp::Other)];
    assert_eq!(compute_graph::compute(&nodes), [0, 3]);
    assert_eq!(compute_graph::compute(&[]), [0usize; 0]);
}

#[test]
fn a_walk_visits_every_element_in_order() {
    let a = tensor(GgmlType::I8, [2, 1, 3, 2], [100, 50, 10, 1], Vec::new());
    assert_eq!(walk::iterate(&a), [0, 1, 10, 11, 20, 21, 100, 101, 110, 111, 120, 121]);
    let empty = tensor(GgmlType::I8, [2, 0, 3, 2], [100, 50, 10, 1], Vec::new());
    assert_eq!(walk::iterate(&empty), [0usize; 0]);
    let negative = tensor(GgmlType::I8, [-1, 1, 1, 1], [1, 1, 1, 1], Vec::new());
    assert_eq!(walk::iterate(&negative), [0usize; 0]);
}

#[test]
fn shapes_are_broadcast() {
    let a = tensor(GgmlType::I8, [2, 1, 1, 3], [3, 3, 3, 1], Vec::new());
    let b = tensor(GgmlType::I8, [1, 1, 4, 3], [12, 12, 3, 1], Vec::new());
    assert!(eltwise::can_broadcast(&[&a, &b]));
    let (shape, strides) = eltwise::broadcast_tensors(&[&a, &b]);
    assert_eq!(shape, [2, 1, 4, 3]);
    assert_eq!(strides, [[3, 3, 0, 1], [0, 12, 3, 1]]);
    let (shape, strides) = eltwise::broadcast_tensors(&[]);
    assert_eq!(shape, [1, 1, 1, 1]);
    assert!(strides.is_empty());
    let c = tensor(GgmlType::I8, [3, 1, 1, 3], [3, 3, 3, 1], Vec::new());
    assert!(!eltwise::can_broadcast(&[&a, &c]));
    let d = tensor(GgmlType::I8, [0, 1, 1, 3], [3, 3, 3, 1], Vec::new());
    assert!(!eltwise::can_broadcast(&[&d]));
}

#[test]
fn tensors_are_walked_side_by_side() {
    let a = tensor(GgmlType::I8, [1, 1, 2, 2], [4, 4, 2, 1], Vec::new());
    let b = tensor(GgmlType::I8, [1, 1, 1, 2], [2, 2, 2, 1], Vec::new());
    let zip = eltwise::iterate_zip(&[&a, &b]);
    assert_eq!(zip.shape, [1, 1, 2, 2]);
    assert_eq!(zip.offsets, [[0, 1, 2, 3], [0, 1, 0, 1]]);
    assert_eq!(zip.strides, [[4, 4, 2, 1], [2, 2, 0, 1]]);
}

#[test]
fn operands_are_split_into_pieces() {
    // 1024 bytes hold 85 elements of 4 + 4 + 4 bytes.
    let bytes: Vec<u8> = (0..400usize).map(|i| i as u8).collect();
    let a = tensor(GgmlType::F32, [1, 1, 1, 100], [400, 400, 400, 4], bytes.clone());
    let b = tensor(GgmlType::F32, [1, 1, 1, 1], [4, 4, 4, 4], vec![9, 8, 7, 6]);
    let pieces = eltwise::eltwise_split(&a, &b, 4, 4, 4);
    assert_eq!(pieces.shape, [1, 1, 1, 100]);
    assert_eq!(pieces.elem_count, 85);
    assert_eq!(pieces.buffers.len(), 2);
    assert_eq!(pieces.buffers[0].0, bytes[..340]);
    assert_eq!(pieces.buffers[0].1, [9, 8, 7, 6].repeat(85));
    assert_eq!(pieces.buffers[1].0[..60], bytes[340..]);
    assert_eq!(pieces.buffers[1].0[60..], [0; 280]);
    assert_eq!(pieces.buffers[1].1[..60], [9, 8, 7, 6].repeat(15));
    assert_eq!(pieces.buffers[1].1.len(), 340);
}

#[test]
fn a_piece_that_is_just_full_is_followed_by_an_empty_one() {
    let a = tensor(GgmlType::I8, [1, 1, 1, 2], [2, 2, 2, 1], vec![1, 2]);
    let pieces = eltwise::eltwise_split(&a, &a, 1, 1, 510);
    assert_eq!(pieces.elem_count, 2);
    assert_eq!(pieces.buffers, [(vec![1, 2], vec![1, 2]), (vec![0, 0], vec![0, 0])]);
}

#[test]
fn strides_without_gaps_end_in_the_element_size() {
    assert_eq!(eltwise::default_strides_for_shape([2, 3, 4, 5], 4), [240, 80, 20, 4]);
    assert_eq!(eltwise::default_strides_for_shape([1, 1, 1, 1], 8), [8, 8, 8, 8]);
    assert_eq!(eltwise::default_strides_for_shape([7, 0, 4, 5], 2), [0, 40, 10, 2]);
    assert_eq!(eltwise::default_strides_for_shape([1, 1, 1, -1], 1), [usize::MAX, usize::MAX, usize::MAX, 1]);
    assert_eq!(eltwise::default_strides_for_shape([-3, 2, 0, -1], 1), [0, 0, usize::MAX, 1]);
}

#[test]
fn what_cannot_be_added_is_told() {
    let a = || tensor(GgmlType::I32, [1, 1, 1, 2], [8, 8, 8, 4], vec![0; 8]);
    let can_add = |a: &GgmlTensor, b: &GgmlTensor, dest, size| {
        compute_graph::can_add(a, b, dest, size, size, size)
    };
    assert!(can_add(&a(), &a(), GgmlType::I32, 4));
    assert!(!can_add(&a(), &a(), GgmlType::I64, 4));
    assert!(!can_add(&a(), &a(), GgmlType::I32, 0));
    assert!(!can_add(&a(), &a(), GgmlType::I32, 400));
    let short = tensor(GgmlType::I32, [1, 1, 1, 2], [8, 8, 8, 4], vec![0; 7]);
    assert!(!can_add(&a(), &short, GgmlType::I32, 4));
    let wide = tensor(GgmlType::I32, [1, 1, 1, 3], [12, 12, 12, 4], vec![0; 12]);
    assert!(!can_add(&a(), &wide, GgmlType::I32, 4));
    let far = tensor(GgmlType::I32, [2, 2, 1, 2], [usize::MAX, 8, 8, 4], vec![0; 8]);
    assert!(!can_add(&far, &a(), GgmlType::I32, 4));
}

#[test]
fn a_walk_over_nothing_comes_nowhere() {
    let far = [usize::MAX; 4];
    assert!(walk::is_walkable(&[i64::MAX, 0, i64::MAX, i64::MAX], &far));
    assert!(!walk::is_walkable(&[1, 2, 1, 1], &far));
    assert!(walk::is_walkable(&[1, 1, 1, 1], &far));
    assert_eq!(walk::walk_offsets(&[0, 1, i64::MAX, 1], &far), [0usize; 0]);
}

#[test]
fn an_addition_is_a_kernel() {
    let a = tensor(GgmlType::I32, [1, 1, 1, 2], [8, 8, 8, 4], vec![1, 0, 0, 0, 2, 0, 0, 0]);
    let b = tensor(GgmlType::I32, [1, 1, 1, 1], [4, 4, 4, 4], vec![3, 0, 0, 0]);
    let addition = compute_graph::add(0x4000, &a, &b, GgmlType::I32, 4, 4, 4);
    assert_eq!(addition.kernel.available_space, 0x4000);
    assert_eq!(addition.kernel.inputs, ["a", "b"]);
    assert!(addition.kernel.global.contains("static a: NocAlignment<u8, 340>"));
    assert!(addition.kernel.global.contains("static b: NocAlignment<u8, 340>"));
    assert!(addition.kernel.global.contains("static _BUFFER_dest_DATA: SYNC<[u8; 341]>"));
    assert_eq!(addition.output.name, "dest");
    assert_eq!((addition.output.size, addition.output.count), (340, 1));
    assert_eq!(addition.pieces.elem_count, 85);
    assert_eq!(addition.pieces.buffers[0].0[..8], [1, 0, 0, 0, 2, 0, 0, 0]);
    assert_eq!(addition.pieces.buffers[0].1[..8], [3, 0, 0, 0, 3, 0, 0, 0]);

    let from = TtxTypes::I32.gen_from(GgmlType::I32).unwrap();
    let to = TtxTypes::I32.gen_to(GgmlType::I32).unwrap();
    let line = format!(
        "dest[_2_tensor_index] = {to}({{ (|input| input)({from}(a[_0_tensor_index])) }} + {{ (|input| input)({from}(b[_1_tensor_index])) }})"
    );
    assert!(addition.kernel.brisc.contains(&line));
    assert!(addition.kernel.brisc.starts_with("for _0_it in 0..1u32 {\nlet _0_tensor_0_dim_index = _0_it * 8;\n"));
    assert!(addition.kernel.brisc.contains("for _3_it in 0..2u32 {"));
    assert!(addition.kernel.brisc.ends_with("\n}\n}\n}\n}"));
    assert_eq!(addition.kernel.ncrisc, "");
}

#[test]
fn devices_are_counted_and_found() {
    assert_eq!(device::count(&["a", "b"]), 2);
    assert_eq!(device::get(&["a", "b"], 1), Some(&"b"));
    assert_eq!(device::get(&["a", "b"], 2), None);
    let props = device::props("chip 0");
    assert_eq!(props.name, "chip 0\0");
    assert_eq!(props.description, "ttx-rs\0");
    assert!(!props.caps.async_ && !props.caps.host_buffer);
    assert!(!props.caps.buffer_from_host_ptr && !props.caps.events);
    assert_eq!((props.memory_free, props.memory_total), (0, 0));
}
