use tensor_backend::{
    BackendKind, BinaryOp, CmpOp, CpuStorage, DType, Error, Layout, Op, Scalar, Shape, UnaryOp,
};

fn layout(dims: Vec<usize>, strides: Vec<usize>, offset: usize) -> Layout {
    Layout::new(Shape::from_dims(dims), strides, offset)
}

#[test]
fn const_set_writes_every_addressed_position_and_no_other() {
    let mut st = CpuStorage::I64(vec![7; 10]);
    let l = layout(vec![2, 2], vec![4, 1], 1);
    st.const_set(Scalar::I64(42), &l).unwrap();
    match st {
        CpuStorage::I64(v) => {
            assert_eq!(v, vec![7, 42, 42, 7, 7, 42, 42, 7, 7, 7]);
        },
        _ => panic!("element type changed"),
    }
}

#[test]
fn const_set_rejects_a_mismatched_scalar_and_leaves_data_alone() {
    let mut st = CpuStorage::U8(vec![9, 9]);
    let l = layout(vec![2], vec![1], 0);
    let e = st.const_set(Scalar::I64(1), &l).unwrap_err();
    assert_eq!(e, Error::UnsupportedDType { op: Op::ConstSet, dtype: DType::I64 });
    assert_eq!(st, CpuStorage::U8(vec![9, 9]));
}

#[test]
fn copy_strided_src_follows_logical_order_not_memory_order() {
    // The buffer holds a 2x3 row-major matrix; the layout views it
    // transposed as 3x2, so the copy must emit the transpose.
    let src = CpuStorage::I64(vec![0, 1, 2, 3, 4, 5]);
    let transposed = layout(vec![3, 2], vec![1, 3], 0);
    let mut dst = CpuStorage::I64(vec![0; 6]);
    src.copy_strided_src(&mut dst, 0, &transposed).unwrap();
    assert_eq!(dst, CpuStorage::I64(vec![0, 3, 1, 4, 2, 5]));
}

#[test]
fn copy_strided_src_leaves_positions_outside_the_run_unmodified() {
    let src = CpuStorage::U32(vec![5, 6]);
    let l = layout(vec![2], vec![1], 0);
    let mut dst = CpuStorage::U32(vec![1, 1, 1, 1, 1]);
    src.copy_strided_src(&mut dst, 2, &l).unwrap();
    assert_eq!(dst, CpuStorage::U32(vec![1, 1, 5, 6, 1]));
}

#[test]
fn copy_strided_src_rejects_mismatched_element_types() {
    let src = CpuStorage::U32(vec![5]);
    let l = layout(vec![1], vec![1], 0);
    let mut dst = CpuStorage::I64(vec![0]);
    let e = src.copy_strided_src(&mut dst, 0, &l).unwrap_err();
    assert_eq!(e, Error::UnsupportedDType { op: Op::Copy, dtype: DType::I64 });
}

#[test]
fn copy2d_copies_rows_at_element_granularity() {
    // Two rows of three elements, read from stride-4 rows, written to
    // stride-3 rows.
    let src = CpuStorage::U8(vec![
        1, 2, 3, 0,
        4, 5, 6, 0,
    ]);
    let mut dst = CpuStorage::U8(vec![9; 7]);
    src.copy2d(&mut dst, 2, 3, 4, 3, 0, 1).unwrap();
    assert_eq!(dst, CpuStorage::U8(vec![9, 1, 2, 3, 4, 5, 6]));
}

#[test]
fn to_dtype_widens_exactly_and_round_trips() {
    let src = CpuStorage::U8(vec![0, 255, 17]);
    let l = layout(vec![3], vec![1], 0);
    let wide = src.to_dtype(&l, DType::U32).unwrap();
    assert_eq!(wide, CpuStorage::U32(vec![0, 255, 17]));
    let back = wide.to_dtype(&l, DType::U8).unwrap();
    assert_eq!(back, CpuStorage::U8(vec![0, 255, 17]));
    let widest = src.to_dtype(&l, DType::I64).unwrap();
    assert_eq!(widest, CpuStorage::I64(vec![0, 255, 17]));
    let back2 = widest.to_dtype(&l, DType::U8).unwrap();
    assert_eq!(back2, CpuStorage::U8(vec![0, 255, 17]));
}

#[test]
fn to_dtype_narrowing_truncates_modulo_the_width() {
    let src = CpuStorage::I64(vec![-1, 300, 256, 4294967296 + 9]);
    let l = layout(vec![4], vec![1], 0);
    let narrow = src.to_dtype(&l, DType::U8).unwrap();
    assert_eq!(narrow, CpuStorage::U8(vec![255, 44, 0, 9]));
    let narrow32 = src.to_dtype(&l, DType::U32).unwrap();
    assert_eq!(narrow32, CpuStorage::U32(vec![4294967295, 300, 256, 9]));
}

#[test]
fn to_dtype_rejects_a_floating_point_target_on_the_host_form() {
    let src = CpuStorage::U8(vec![1]);
    let l = layout(vec![1], vec![1], 0);
    let e = src.to_dtype(&l, DType::F32).unwrap_err();
    assert_eq!(e, Error::UnsupportedDType { op: Op::ToDType, dtype: DType::F32 });
}

#[test]
fn matmul_matches_a_naive_triple_loop() {
    let b = 2usize;
    let m = 3usize;
    let n = 4usize;
    let k = 5usize;
    let lhs_data: Vec<i64> = (0..(b * m * k) as i64).map(|x| (x * 7) % 11 - 5).collect();
    let rhs_data: Vec<i64> = (0..(b * k * n) as i64).map(|x| (x * 5) % 13 - 6).collect();
    let lhs = CpuStorage::I64(lhs_data.clone());
    let rhs = CpuStorage::I64(rhs_data.clone());
    let lhs_l = layout(vec![b, m, k], vec![m * k, k, 1], 0);
    let rhs_l = layout(vec![b, k, n], vec![k * n, n, 1], 0);
    let out = lhs.matmul(&rhs, (b, m, n, k), &lhs_l, &rhs_l).unwrap();
    let mut expected = vec![0i64; b * m * n];
    for bi in 0..b {
        for i in 0..m {
            for j in 0..n {
                let mut acc = 0i64;
                for t in 0..k {
                    acc += lhs_data[(bi * m + i) * k + t] * rhs_data[(bi * k + t) * n + j];
                }
                expected[(bi * m + i) * n + j] = acc;
            }
        }
    }
    assert_eq!(out, CpuStorage::I64(expected));
}

#[test]
fn matmul_reads_non_contiguous_views_through_their_strides() {
    // One batch: lhs is the transpose view of a stored 2x3 matrix, so the
    // product is (stored matrix)^T * rhs.
    let lhs = CpuStorage::I64(vec![1, 2, 3, 4, 5, 6]);
    let rhs = CpuStorage::I64(vec![1, 0, 0, 1]);
    let lhs_l = layout(vec![1, 3, 2], vec![6, 1, 3], 0);
    let rhs_l = layout(vec![1, 2, 2], vec![4, 2, 1], 0);
    let out = lhs.matmul(&rhs, (1, 3, 2, 2), &lhs_l, &rhs_l).unwrap();
    assert_eq!(out, CpuStorage::I64(vec![1, 4, 2, 5, 3, 6]));
}

#[test]
fn matmul_rejects_shape_and_dtype_mismatches() {
    let lhs = CpuStorage::I64(vec![0; 6]);
    let rhs = CpuStorage::I64(vec![0; 6]);
    let lhs_l = layout(vec![1, 2, 3], vec![6, 3, 1], 0);
    let rhs_l = layout(vec![1, 3, 2], vec![6, 2, 1], 0);
    let e = lhs.matmul(&rhs, (1, 2, 2, 4), &lhs_l, &rhs_l).unwrap_err();
    assert_eq!(e, Error::ShapeMismatch);
    let lhs8 = CpuStorage::U8(vec![0; 6]);
    let rhs8 = CpuStorage::U8(vec![0; 6]);
    let e2 = lhs8.matmul(&rhs8, (1, 2, 2, 3), &lhs_l, &rhs_l).unwrap_err();
    assert!(matches!(e2, Error::UnsupportedDType { op: Op::Matmul, dtype: DType::U8 }));
}

#[test]
fn cmp_produces_a_byte_mask_in_logical_order() {
    let a = CpuStorage::I64(vec![1, 5, 3, 3]);
    let b = CpuStorage::I64(vec![2, 4, 3, 1]);
    let l = layout(vec![4], vec![1], 0);
    let lt = a.cmp(CmpOp::Lt, &b, &l, &l).unwrap();
    assert_eq!(lt, CpuStorage::U8(vec![1, 0, 0, 0]));
    let eq = a.cmp(CmpOp::Eq, &b, &l, &l).unwrap();
    assert_eq!(eq, CpuStorage::U8(vec![0, 0, 1, 0]));
    let ge = a.cmp(CmpOp::Ge, &b, &l, &l).unwrap();
    assert_eq!(ge, CpuStorage::U8(vec![0, 1, 1, 1]));
}

#[test]
fn cmp_rejects_shape_and_dtype_mismatches() {
    let a = CpuStorage::I64(vec![1, 2]);
    let b = CpuStorage::I64(vec![1, 2, 3]);
    let la = layout(vec![2], vec![1], 0);
    let lb = layout(vec![3], vec![1], 0);
    assert_eq!(a.cmp(CmpOp::Eq, &b, &la, &lb).unwrap_err(), Error::ShapeMismatch);
    let c = CpuStorage::U8(vec![1, 2]);
    assert_eq!(
        a.cmp(CmpOp::Eq, &c, &la, &la).unwrap_err(),
        Error::UnsupportedDType { op: Op::Cmp, dtype: DType::U8 }
    );
}

#[test]
fn where_cond_selects_element_by_element() {
    let pred = CpuStorage::U8(vec![1, 0, 2, 0]);
    let on_true = CpuStorage::I64(vec![10, 11, 12, 13]);
    let on_false = CpuStorage::I64(vec![20, 21, 22, 23]);
    let l = layout(vec![4], vec![1], 0);
    let out = pred.where_cond(&l, &on_true, &l, &on_false, &l).unwrap();
    assert_eq!(out, CpuStorage::I64(vec![10, 21, 12, 23]));
    let mismatched = CpuStorage::U32(vec![0, 0, 0, 0]);
    assert_eq!(
        pred.where_cond(&l, &on_true, &l, &mismatched, &l).unwrap_err(),
        Error::UnsupportedDType { op: Op::WhereCond, dtype: DType::U32 }
    );
}

#[test]
fn affine_applies_scale_then_bias_elementwise() {
    let st = CpuStorage::I64(vec![1, -2, 3]);
    let l = layout(vec![3], vec![1], 0);
    let out = st.affine(&l, Scalar::I64(10), Scalar::I64(-7)).unwrap();
    assert_eq!(out, CpuStorage::I64(vec![3, -27, 23]));
    let e = CpuStorage::U8(vec![1]).affine(&l, Scalar::I64(1), Scalar::I64(0)).unwrap_err();
    assert_eq!(e, Error::UnsupportedDType { op: Op::Affine, dtype: DType::U8 });
}

#[test]
fn affine_with_a_unit_scale_inverts_itself() {
    // With scale -1 the inverse map has scale 1/-1 = -1 and bias
    // -bias/scale = bias: the same map applied twice.
    let st = CpuStorage::I64(vec![4, -9, 0]);
    let l = layout(vec![3], vec![1], 0);
    let once = st.affine(&l, Scalar::I64(-1), Scalar::I64(5)).unwrap();
    assert_eq!(once, CpuStorage::I64(vec![1, 14, 5]));
    let back = once.affine(&l, Scalar::I64(-1), Scalar::I64(5)).unwrap();
    assert_eq!(back, st);
}

#[test]
fn unary_ops_apply_elementwise() {
    let st = CpuStorage::I64(vec![3, -4, 0]);
    let l = layout(vec![3], vec![1], 0);
    assert_eq!(
        st.unary_impl(UnaryOp::Neg, &l).unwrap(),
        CpuStorage::I64(vec![-3, 4, 0])
    );
    assert_eq!(
        st.unary_impl(UnaryOp::Abs, &l).unwrap(),
        CpuStorage::I64(vec![3, 4, 0])
    );
    assert_eq!(
        st.unary_impl(UnaryOp::Sqr, &l).unwrap(),
        CpuStorage::I64(vec![9, 16, 0])
    );
}

#[test]
fn binary_ops_apply_elementwise() {
    let a = CpuStorage::I64(vec![3, -4, 7]);
    let b = CpuStorage::I64(vec![5, -1, 7]);
    let l = layout(vec![3], vec![1], 0);
    assert_eq!(
        a.binary_impl(BinaryOp::Add, &b, &l, &l).unwrap(),
        CpuStorage::I64(vec![8, -5, 14])
    );
    assert_eq!(
        a.binary_impl(BinaryOp::Mul, &b, &l, &l).unwrap(),
        CpuStorage::I64(vec![15, 4, 49])
    );
    assert_eq!(
        a.binary_impl(BinaryOp::Min, &b, &l, &l).unwrap(),
        CpuStorage::I64(vec![3, -4, 7])
    );
    assert_eq!(
        a.binary_impl(BinaryOp::Max, &b, &l, &l).unwrap(),
        CpuStorage::I64(vec![5, -1, 7])
    );
}

#[test]
fn index_select_picks_slices_in_index_order() {
    // A 2x3 matrix; selecting columns (axis 1) with indexes [2, 0] keeps
    // each row and reorders its entries.
    let st = CpuStorage::I64(vec![1, 2, 3, 4, 5, 6]);
    let l = layout(vec![2, 3], vec![3, 1], 0);
    let ids = CpuStorage::I64(vec![2, 0]);
    let ids_l = layout(vec![2], vec![1], 0);
    let cols = st.index_select(&ids, &l, &ids_l, 1).unwrap();
    assert_eq!(cols, CpuStorage::I64(vec![3, 1, 6, 4]));
    // Selecting rows (axis 0) with indexes [1, 1, 0] repeats the second row.
    let rows_ids = CpuStorage::U8(vec![1, 1, 0]);
    let rows_ids_l = layout(vec![3], vec![1], 0);
    let rows = st.index_select(&rows_ids, &l, &rows_ids_l, 0).unwrap();
    assert_eq!(rows, CpuStorage::I64(vec![4, 5, 6, 4, 5, 6, 1, 2, 3]));
}

#[test]
fn index_select_rejects_an_axis_beyond_the_rank() {
    let st = CpuStorage::U32(vec![1, 2]);
    let l = layout(vec![2], vec![1], 0);
    let ids = CpuStorage::I64(vec![0]);
    let ids_l = layout(vec![1], vec![1], 0);
    assert_eq!(
        st.index_select(&ids, &l, &ids_l, 1).unwrap_err(),
        Error::OutOfBoundsIndex { axis: 1 }
    );
}

#[test]
fn gather_picks_entries_named_by_a_same_shape_index_view() {
    // A 2x3 matrix gathered along the columns (axis 1) by a 2x2 index
    // view: row o of the result holds src[o, ids[o, 0]] and src[o, ids[o, 1]].
    let st = CpuStorage::I64(vec![1, 2, 3, 4, 5, 6]);
    let l = layout(vec![2, 3], vec![3, 1], 0);
    let ids = CpuStorage::I64(vec![2, 0, 1, 1]);
    let ids_l = layout(vec![2, 2], vec![2, 1], 0);
    let out = st.gather(&l, &ids, &ids_l, 1).unwrap();
    assert_eq!(out, CpuStorage::I64(vec![3, 1, 5, 5]));
}

#[test]
fn gather_rejects_bad_axes_and_mismatched_index_shapes() {
    let st = CpuStorage::I64(vec![1, 2, 3, 4, 5, 6]);
    let l = layout(vec![2, 3], vec![3, 1], 0);
    let ids = CpuStorage::I64(vec![0]);
    let flat_ids_l = layout(vec![1], vec![1], 0);
    assert_eq!(
        st.gather(&l, &ids, &flat_ids_l, 2).unwrap_err(),
        Error::OutOfBoundsIndex { axis: 2 }
    );
    assert_eq!(st.gather(&l, &ids, &flat_ids_l, 1).unwrap_err(), Error::ShapeMismatch);
    let wrong_rows = layout(vec![3, 1], vec![1, 1], 0);
    assert_eq!(st.gather(&l, &ids, &wrong_rows, 1).unwrap_err(), Error::ShapeMismatch);
}

#[test]
fn get_reads_back_the_stored_scalar() {
    let st = CpuStorage::U32(vec![10, 20]);
    assert_eq!(st.get(1), Scalar::U32(20));
    assert_eq!(st.dtype(), DType::U32);
    assert_eq!(st.len(), 2);
}

#[test]
fn backend_kinds_are_distinct() {
    assert_ne!(
        Error::BackendNotAvailable(BackendKind::Metal),
        Error::BackendNotAvailable(BackendKind::Cuda)
    );
}
