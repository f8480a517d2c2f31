use tensor_backend::{
    BackendKind, BinaryOp, CmpOp, DType, Error, GgmlDType, GgmlType, Layout, MetalDevice,
    MetalStorage, ParamsConv1D, ParamsConv2D, ParamsConvTranspose1D, ParamsConvTranspose2D,
    QMetalStorage, ReduceOp, Scalar, Shape, UnaryOp,
};

fn metal_err() -> Error {
    Error::BackendNotAvailable(BackendKind::Metal)
}

fn unit_layout() -> Layout {
    Layout::new(Shape::from_dims(vec![1]), vec![1], 0)
}

#[test]
fn storage_data_calls_fail_with_backend_not_available() {
    let s = MetalStorage;
    let mut d = MetalStorage;
    let l = unit_layout();
    assert_eq!(s.try_clone(&l).unwrap_err(), metal_err());
    assert_eq!(s.to_cpu_storage().unwrap_err(), metal_err());
    assert_eq!(d.const_set(Scalar::U8(1), &l).unwrap_err(), metal_err());
    assert_eq!(s.affine(&l, Scalar::I64(2), Scalar::I64(3)).unwrap_err(), metal_err());
    assert_eq!(s.powf(&l, Scalar::I64(2)).unwrap_err(), metal_err());
    assert_eq!(s.elu(&l, Scalar::I64(1)).unwrap_err(), metal_err());
    assert_eq!(s.reduce_op(ReduceOp::Sum, &l, &[0]).unwrap_err(), metal_err());
    assert_eq!(s.cmp(CmpOp::Eq, &MetalStorage, &l, &unit_layout()).unwrap_err(), metal_err());
    assert_eq!(s.to_dtype(&l, DType::F32).unwrap_err(), metal_err());
    assert_eq!(s.unary_impl(UnaryOp::Neg, &l).unwrap_err(), metal_err());
    assert_eq!(
        s.binary_impl(BinaryOp::Add, &MetalStorage, &l, &unit_layout()).unwrap_err(),
        metal_err()
    );
    assert_eq!(
        s.where_cond(&l, &MetalStorage, &unit_layout(), &MetalStorage, &unit_layout())
            .unwrap_err(),
        metal_err()
    );
}

#[test]
fn storage_windowed_calls_fail_with_backend_not_available() {
    let s = MetalStorage;
    let l = unit_layout();
    let p1 = ParamsConv1D {
        b_size: 1,
        l_in: 4,
        c_out: 1,
        c_in: 1,
        k_size: 1,
        padding: 0,
        stride: 1,
        dilation: 1,
    };
    let pt1 = ParamsConvTranspose1D {
        b_size: 1,
        l_in: 4,
        c_out: 1,
        c_in: 1,
        k_size: 1,
        padding: 0,
        output_padding: 0,
        stride: 1,
        dilation: 1,
    };
    let p2 = ParamsConv2D {
        b_size: 1,
        i_h: 4,
        i_w: 4,
        k_h: 1,
        k_w: 1,
        c_out: 1,
        c_in: 1,
        padding: 0,
        stride: 1,
        dilation: 1,
    };
    let pt2 = ParamsConvTranspose2D {
        b_size: 1,
        i_h: 4,
        i_w: 4,
        k_h: 1,
        k_w: 1,
        c_out: 1,
        c_in: 1,
        padding: 0,
        output_padding: 0,
        stride: 1,
        dilation: 1,
    };
    assert_eq!(s.conv1d(&l, &MetalStorage, &unit_layout(), &p1).unwrap_err(), metal_err());
    assert_eq!(
        s.conv_transpose1d(&l, &MetalStorage, &unit_layout(), &pt1).unwrap_err(),
        metal_err()
    );
    assert_eq!(s.conv2d(&l, &MetalStorage, &unit_layout(), &p2).unwrap_err(), metal_err());
    assert_eq!(
        s.conv_transpose2d(&l, &MetalStorage, &unit_layout(), &pt2).unwrap_err(),
        metal_err()
    );
    assert_eq!(s.avg_pool2d(&l, (2, 2), (2, 2)).unwrap_err(), metal_err());
    assert_eq!(s.max_pool2d(&l, (2, 2), (2, 2)).unwrap_err(), metal_err());
    assert_eq!(s.upsample_nearest1d(&l, 8).unwrap_err(), metal_err());
    assert_eq!(s.upsample_nearest2d(&l, 8, 8).unwrap_err(), metal_err());
    assert_eq!(s.upsample_bilinear2d(&l, 8, 8, false, None, None).unwrap_err(), metal_err());
}

#[test]
fn storage_indexing_and_copy_calls_fail_with_backend_not_available() {
    let s = MetalStorage;
    let mut m = MetalStorage;
    let mut dst = MetalStorage;
    let l = unit_layout();
    assert_eq!(s.gather(&l, &MetalStorage, &unit_layout(), 0).unwrap_err(), metal_err());
    assert_eq!(
        m.scatter_set(&l, &MetalStorage, &unit_layout(), &MetalStorage, &unit_layout(), 0)
            .unwrap_err(),
        metal_err()
    );
    assert_eq!(
        m.scatter_add_set(&l, &MetalStorage, &unit_layout(), &MetalStorage, &unit_layout(), 0)
            .unwrap_err(),
        metal_err()
    );
    assert_eq!(
        s.index_select(&MetalStorage, &l, &unit_layout(), 0).unwrap_err(),
        metal_err()
    );
    assert_eq!(
        s.index_add(&l, &MetalStorage, &unit_layout(), &MetalStorage, &unit_layout(), 0)
            .unwrap_err(),
        metal_err()
    );
    assert_eq!(
        s.matmul(&MetalStorage, (1, 1, 1, 1), &l, &unit_layout()).unwrap_err(),
        metal_err()
    );
    assert_eq!(s.copy_strided_src(&mut dst, 0, &l).unwrap_err(), metal_err());
    assert_eq!(s.copy2d(&mut dst, 1, 1, 1, 1, 0, 0).unwrap_err(), metal_err());
}

#[test]
fn device_calls_fail_with_backend_not_available() {
    assert_eq!(MetalDevice::new(0).unwrap_err(), metal_err());
    let dev = MetalDevice;
    let shape = Shape::from_dims(vec![2, 2]);
    assert_eq!(dev.set_seed(42).unwrap_err(), metal_err());
    assert_eq!(dev.get_current_seed().unwrap_err(), metal_err());
    assert_eq!(dev.zeros_impl(&shape, DType::F32).unwrap_err(), metal_err());
    assert_eq!(dev.alloc_uninit(&shape, DType::F32).unwrap_err(), metal_err());
    let host: [u8; 3] = [1, 2, 3];
    assert_eq!(dev.storage_from_slice(&host).unwrap_err(), metal_err());
    let cpu = tensor_backend::CpuStorage::U8(vec![1, 2, 3]);
    assert_eq!(dev.storage_from_cpu_storage(&cpu).unwrap_err(), metal_err());
    assert_eq!(dev.storage_from_cpu_storage_owned(cpu).unwrap_err(), metal_err());
    assert_eq!(
        dev.rand_uniform(&shape, DType::F32, Scalar::I64(0), Scalar::I64(1)).unwrap_err(),
        metal_err()
    );
    assert_eq!(
        dev.rand_normal(&shape, DType::F32, Scalar::I64(0), Scalar::I64(1)).unwrap_err(),
        metal_err()
    );
}

#[test]
fn synchronize_succeeds_with_nothing_to_wait_for() {
    let dev = MetalDevice;
    assert!(dev.synchronize().is_ok());
}

struct QuantBlob;

impl GgmlType for QuantBlob {
    fn dtype() -> GgmlDType {
        GgmlDType::Q8_0
    }
}

#[test]
fn quantized_calls_fail_with_backend_not_available() {
    let dev = MetalDevice;
    assert_eq!(QMetalStorage::zeros(&dev, 64, GgmlDType::Q4_0).unwrap_err(), metal_err());
    let data: [QuantBlob; 0] = [];
    assert_eq!(tensor_backend::load_quantized(&dev, &data).unwrap_err(), metal_err());
    assert_eq!(QuantBlob::dtype(), GgmlDType::Q8_0);
}
