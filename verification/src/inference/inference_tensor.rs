//! Tensors handed to the inference engine: a shape, a byte buffer and the
//! element type, either owned or borrowed.

use vstd::prelude::*;

verus! {

/// Memory layout of a tensor's elements.
#[derive(Debug, Clone, Copy)]
pub enum InferenceTensorDataLayout {
    NCHW,
    NHWC,
    CHWN,
}

/// Element type of a tensor.
#[derive(Debug, Clone, Copy)]
pub enum InferenceTensorType {
    F16,
    F32,
    U8,
    I32,
}

/// A tensor's shape and bytes, owned or borrowed.
pub enum TensorData<'a> {
    Owned { shape: Vec<u32>, data: Vec<u8> },
    Ref { shape_ref: &'a [u32], data_ref: &'a [u8] },
}

/// A tensor buffer with its element type and layout.
pub struct InferenceTensor<'a> {
    pub tp: InferenceTensorType,
    pub data_layout: InferenceTensorDataLayout,
    pub data: TensorData<'a>,
}

/// The tensor's shape, whichever variant holds it.
pub open spec fn spec_shape(d: TensorData) -> Seq<u32> {
    match d {
        TensorData::Owned { shape, .. } => shape@,
        TensorData::Ref { shape_ref, .. } => shape_ref@,
    }
}

/// The tensor's bytes, whichever variant holds them.
pub open spec fn spec_data(d: TensorData) -> Seq<u8> {
    match d {
        TensorData::Owned { data, .. } => data@,
        TensorData::Ref { data_ref, .. } => data_ref@,
    }
}

impl<'a> InferenceTensor<'a> {
    /// A tensor borrowing its shape and bytes.
    pub fn new_ref(
        tp: InferenceTensorType,
        data_layout: InferenceTensorDataLayout,
        shape_ref: &'a [u32],
        data_ref: &'a [u8],
    ) -> (r: Self)
        ensures
            r.tp == tp,
            r.data_layout == data_layout,
            spec_shape(r.data) == shape_ref@,
            spec_data(r.data) == data_ref@,
            r.data is Ref,
    {
        Self { tp, data_layout, data: TensorData::Ref { shape_ref, data_ref } }
    }

    /// A tensor owning its shape and bytes.
    pub fn new(
        tp: InferenceTensorType,
        data_layout: InferenceTensorDataLayout,
        shape: Vec<u32>,
        data: Vec<u8>,
    ) -> (r: Self)
        ensures
            r.tp == tp,
            r.data_layout == data_layout,
            spec_shape(r.data) == shape@,
            spec_data(r.data) == data@,
            r.data is Owned,
    {
        Self { tp, data_layout, data: TensorData::Owned { shape, data } }
    }

    /// The shape, whichever variant holds it.
    pub fn shape_ref(&self) -> (r: &[u32])
        ensures
            r@ == spec_shape(self.data),
    {
        match &self.data {
            TensorData::Ref { shape_ref, .. } => shape_ref,
            TensorData::Owned { shape, .. } => shape.as_slice(),
        }
    }

    /// The bytes, whichever variant holds them.
    pub fn data_ref(&self) -> (r: &[u8])
        ensures
            r@ == spec_data(self.data),
    {
        match &self.data {
            TensorData::Ref { data_ref, .. } => data_ref,
            TensorData::Owned { data, .. } => data.as_slice(),
        }
    }

    /// Shape and bytes together.
    pub fn tensor_data_ref(&self) -> (r: (&[u32], &[u8]))
        ensures
            r.0@ == spec_shape(self.data),
            r.1@ == spec_data(self.data),
    {
        match &self.data {
            TensorData::Ref { shape_ref, data_ref } => (shape_ref, data_ref),
            TensorData::Owned { shape, data } => (shape.as_slice(), data.as_slice()),
        }
    }

    /// The element type.
    pub fn tp(&self) -> (r: InferenceTensorType)
        ensures
            r == self.tp,
    {
        self.tp
    }

    /// The memory layout.
    pub fn data_layout(&self) -> (r: &InferenceTensorDataLayout)
        ensures
            *r == self.data_layout,
    {
        &self.data_layout
    }

    /// Copy a borrowed tensor's buffers so the result owns them.
    pub fn to_owned(self) -> (r: InferenceTensor<'static>)
        ensures
            r.tp == self.tp,
            r.data_layout == self.data_layout,
            spec_shape(r.data) == spec_shape(self.data),
            spec_data(r.data) == spec_data(self.data),
            r.data is Owned,
    {
        match self.data {
            TensorData::Owned { shape, data } => InferenceTensor {
                tp: self.tp,
                data_layout: self.data_layout,
                data: TensorData::Owned { shape, data },
            },
            TensorData::Ref { shape_ref, data_ref } => InferenceTensor {
                tp: self.tp,
                data_layout: self.data_layout,
                data: TensorData::Owned {
                    shape: vstd::slice::slice_to_vec(shape_ref),
                    data: vstd::slice::slice_to_vec(data_ref),
                },
            },
        }
    }
}

} // verus!
