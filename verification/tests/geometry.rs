use tensor_backend::{
    DType, Error, GgmlDType, Layout, ParamsConv1D, ParamsConv2D, ParamsConvTranspose1D, Scalar,
    Shape, WithDType,
};

#[test]
fn shape_elem_count_is_the_product_of_the_dimensions() {
    assert_eq!(Shape::from_dims(vec![2, 3, 4]).elem_count(), 24);
    assert_eq!(Shape::from_dims(vec![]).elem_count(), 1);
    assert_eq!(Shape::from_dims(vec![5, 0, 7]).elem_count(), 0);
    assert_eq!(Shape::from_dims(vec![2, 3]).checked_elem_count(), Some(6));
    assert_eq!(Shape::from_dims(vec![usize::MAX, 2]).checked_elem_count(), None);
    assert_eq!(Shape::from_dims(vec![usize::MAX, 2, 0]).checked_elem_count(), Some(0));
}

#[test]
fn shape_dim_rejects_an_axis_beyond_the_rank() {
    let s = Shape::from_dims(vec![4, 5]);
    assert_eq!(s.dim(1), Ok(5));
    assert_eq!(s.dim(2), Err(Error::OutOfBoundsIndex { axis: 2 }));
    assert_eq!(s.rank(), 2);
}

#[test]
fn layout_position_follows_strides_and_offset() {
    let l = Layout::new(Shape::from_dims(vec![3, 2]), vec![1, 3], 0);
    // Logical order of the transposed view: (0,0) (0,1) (1,0) (1,1) ...
    assert_eq!(l.position(0), 0);
    assert_eq!(l.position(1), 3);
    assert_eq!(l.position(2), 1);
    assert_eq!(l.position(3), 4);
    assert_eq!(l.position(5), 5);
    let with_offset = Layout::new(Shape::from_dims(vec![2, 2]), vec![4, 1], 1);
    assert_eq!(with_offset.position(0), 1);
    assert_eq!(with_offset.position(3), 6);
    assert_eq!(with_offset.start_offset(), 1);
    assert_eq!(with_offset.stride(), &vec![4, 1]);
    assert_eq!(with_offset.shape().dims(), &vec![2, 2]);
}

#[test]
fn fits_decides_the_layout_invariant() {
    let l = Layout::new(Shape::from_dims(vec![3, 2]), vec![1, 3], 0);
    // Largest reachable index: 2*1 + 1*3 = 5.
    assert!(l.fits(6));
    assert!(!l.fits(5));
    let empty = Layout::new(Shape::from_dims(vec![0, 9]), vec![100, 100], 50);
    assert!(empty.fits(0));
    let ragged = Layout::new(Shape::from_dims(vec![2, 2]), vec![4], 0);
    assert!(!ragged.fits(100));
    let huge = Layout::new(Shape::from_dims(vec![2]), vec![usize::MAX], 1);
    assert!(!huge.fits(usize::MAX));
}

#[test]
fn contiguous_builds_row_major_strides() {
    let l = Layout::contiguous(Shape::from_dims(vec![2, 3, 4])).unwrap();
    assert_eq!(l.stride(), &vec![12, 4, 1]);
    assert_eq!(l.start_offset(), 0);
    assert_eq!(l.shape().dims(), &vec![2, 3, 4]);
    // On the dense view, logical position and physical index coincide.
    for p in 0..24 {
        assert_eq!(l.position(p), p);
    }
    assert!(Layout::contiguous(Shape::from_dims(vec![usize::MAX, usize::MAX])).is_none());
}

#[test]
fn conv_output_size_follows_the_standard_formula() {
    let p = ParamsConv1D {
        b_size: 1,
        l_in: 10,
        c_out: 1,
        c_in: 1,
        k_size: 3,
        padding: 0,
        stride: 1,
        dilation: 1,
    };
    assert_eq!(p.l_out(), Some(8));
    let padded = ParamsConv1D { padding: 1, ..p };
    assert_eq!(padded.l_out(), Some(10));
    let strided = ParamsConv1D { stride: 2, ..p };
    assert_eq!(strided.l_out(), Some(4));
    let dilated = ParamsConv1D { dilation: 2, ..p };
    assert_eq!(dilated.l_out(), Some(6));
}

#[test]
fn conv_rejects_a_non_positive_output_extent() {
    let p = ParamsConv1D {
        b_size: 1,
        l_in: 1,
        c_out: 1,
        c_in: 1,
        k_size: 5,
        padding: 0,
        stride: 1,
        dilation: 1,
    };
    assert_eq!(p.l_out(), None);
    let p2 = ParamsConv2D {
        b_size: 1,
        i_h: 2,
        i_w: 9,
        k_h: 4,
        k_w: 2,
        c_out: 1,
        c_in: 1,
        padding: 0,
        stride: 1,
        dilation: 1,
    };
    assert_eq!(p2.out_h(), None);
    assert_eq!(p2.out_w(), Some(8));
}

#[test]
fn conv_transpose_output_size_follows_the_standard_formula() {
    let p = ParamsConvTranspose1D {
        b_size: 1,
        l_in: 4,
        c_out: 1,
        c_in: 1,
        k_size: 3,
        padding: 0,
        output_padding: 0,
        stride: 2,
        dilation: 1,
    };
    assert_eq!(p.l_out(), Some(9));
    let padded = ParamsConvTranspose1D { padding: 4, ..p };
    assert_eq!(padded.l_out(), Some(1));
    let too_padded = ParamsConvTranspose1D { padding: 5, ..p };
    assert_eq!(too_padded.l_out(), None);
}

#[test]
fn dtype_sizes_and_kinds() {
    assert_eq!(DType::U8.size_in_bytes(), 1);
    assert_eq!(DType::U32.size_in_bytes(), 4);
    assert_eq!(DType::I64.size_in_bytes(), 8);
    assert_eq!(DType::F16.size_in_bytes(), 2);
    assert_eq!(DType::BF16.size_in_bytes(), 2);
    assert_eq!(DType::F32.size_in_bytes(), 4);
    assert_eq!(DType::F64.size_in_bytes(), 8);
    assert!(DType::U8.is_int() && DType::U32.is_int() && DType::I64.is_int());
    assert!(DType::F32.is_float() && !DType::F32.is_int());
    assert_eq!(Scalar::U8(3).dtype(), DType::U8);
    assert_eq!(Scalar::I64(-3).dtype(), DType::I64);
    assert_eq!(<u8 as WithDType>::dtype(), DType::U8);
    assert_eq!(<u32 as WithDType>::dtype(), DType::U32);
    assert_eq!(<i64 as WithDType>::dtype(), DType::I64);
}

#[test]
fn quantized_block_geometry_and_footprint() {
    assert_eq!(GgmlDType::Q4_0.block_size(), 32);
    assert_eq!(GgmlDType::Q4_0.type_size(), 18);
    assert_eq!(GgmlDType::Q8_0.type_size(), 34);
    assert_eq!(GgmlDType::F32.block_size(), 1);
    assert_eq!(GgmlDType::Q4_0.storage_size_in_bytes(64), Ok(36));
    assert_eq!(GgmlDType::Q8_0.storage_size_in_bytes(32), Ok(34));
    assert_eq!(GgmlDType::F32.storage_size_in_bytes(7), Ok(28));
    assert_eq!(
        GgmlDType::Q4_0.storage_size_in_bytes(33),
        Err(Error::IncompatibleQuantizationParameters)
    );
}
