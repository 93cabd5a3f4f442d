//! Configuration of an inference graph: which backend encodes it and which
//! device runs it.

use vstd::prelude::*;

verus! {

/// The model format a graph is encoded in.
#[derive(Debug, Clone, Copy, Eq, PartialEq, Structural)]
pub enum InferenceGraphEncoding {
    Onnx,
    Openvino,
    Tensorflow,
    Pytorch,
    TensorflowLite,
}

/// The device a graph runs on.
#[derive(Debug, Clone, Copy, PartialEq, Eq, Structural)]
pub enum InferenceGraphDevice {
    CPU,
    GPU,
    TPU,
}

/// Builder collecting a graph's encoding and device before it is loaded.
#[derive(Debug, Clone)]
pub struct InferenceGraphBuilder {
    pub encoding: InferenceGraphEncoding,
    pub device: InferenceGraphDevice,
}

impl Default for InferenceGraphBuilder {
    /// The default configuration: a TensorFlow Lite graph on the CPU.
    fn default() -> (r: Self)
        ensures
            r.encoding is TensorflowLite,
            r.device is CPU,
    {
        Self::new(InferenceGraphEncoding::TensorflowLite, InferenceGraphDevice::CPU)
    }
}

impl InferenceGraphBuilder {
    /// A builder with the given encoding and device.
    pub fn new(backend: InferenceGraphEncoding, device: InferenceGraphDevice) -> (r: Self)
        ensures
            r.encoding == backend,
            r.device == device,
    {
        Self { encoding: backend, device }
    }

    /// Replace the encoding.
    pub fn encoding(self, backend: InferenceGraphEncoding) -> (r: Self)
        ensures
            r.encoding == backend,
            r.device == self.device,
    {
        let mut b = self;
        b.encoding = backend;
        b
    }

    /// Replace the device.
    pub fn device(self, device: InferenceGraphDevice) -> (r: Self)
        ensures
            r.encoding == self.encoding,
            r.device == device,
    {
        let mut b = self;
        b.device = device;
        b
    }
}

} // verus!
