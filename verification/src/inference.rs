//! Data types of the inference boundary: graph configuration, tensors and
//! errors.  Running a model is the embedding application's business; these
//! types carry its configuration and buffers.

pub mod inference_error;
pub mod inference_graph;
pub mod inference_tensor;

pub use inference_error::InferenceError;
pub use inference_graph::{InferenceGraphBuilder, InferenceGraphDevice, InferenceGraphEncoding};
pub use inference_tensor::{
    InferenceTensor, InferenceTensorDataLayout, InferenceTensorType, TensorData,
};
