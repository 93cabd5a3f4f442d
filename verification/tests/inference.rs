use mediapipe_wasinn_demo::inference::{
    InferenceGraphBuilder, InferenceGraphDevice, InferenceGraphEncoding, InferenceTensor,
    InferenceTensorDataLayout, InferenceTensorType, TensorData,
};

#[test]
fn test_graph_builder_default() {
    let graph = InferenceGraphBuilder::default();
    assert_eq!(graph.device, InferenceGraphDevice::CPU);
    assert_eq!(graph.encoding, InferenceGraphEncoding::TensorflowLite);
}

#[test]
fn test_graph_builder_setters() {
    let b = InferenceGraphBuilder::new(
        InferenceGraphEncoding::TensorflowLite,
        InferenceGraphDevice::CPU,
    );
    let b = b.encoding(InferenceGraphEncoding::Onnx).device(InferenceGraphDevice::GPU);
    assert_eq!(b.encoding, InferenceGraphEncoding::Onnx);
    assert_eq!(b.device, InferenceGraphDevice::GPU);
}

#[test]
fn test_tensor_ref_accessors() {
    let shape: [u32; 4] = [1, 2, 2, 3];
    let data: [u8; 4] = [10, 20, 30, 40];
    let t = InferenceTensor::new_ref(
        InferenceTensorType::F32,
        InferenceTensorDataLayout::NHWC,
        &shape,
        &data,
    );
    assert_eq!(t.shape_ref(), &shape);
    assert_eq!(t.data_ref(), &data);
    let (s, d) = t.tensor_data_ref();
    assert_eq!(s, &shape);
    assert_eq!(d, &data);
    assert!(matches!(t.tp(), InferenceTensorType::F32));
    assert!(matches!(t.data_layout(), InferenceTensorDataLayout::NHWC));
}

#[test]
fn test_tensor_owned_and_to_owned() {
    let t = InferenceTensor::new(
        InferenceTensorType::U8,
        InferenceTensorDataLayout::NCHW,
        vec![1, 3],
        vec![7, 8, 9],
    );
    assert_eq!(t.shape_ref(), &[1, 3]);
    assert_eq!(t.data_ref(), &[7, 8, 9]);

    let shape: [u32; 2] = [1, 2];
    let data: [u8; 2] = [5, 6];
    let borrowed = InferenceTensor::new_ref(
        InferenceTensorType::I32,
        InferenceTensorDataLayout::CHWN,
        &shape,
        &data,
    );
    let owned = borrowed.to_owned();
    assert_eq!(owned.shape_ref(), &[1, 2]);
    assert_eq!(owned.data_ref(), &[5, 6]);
    assert!(matches!(owned.data, TensorData::Owned { .. }));
    assert!(matches!(owned.tp(), InferenceTensorType::I32));
}
