//! Turning media data into tensors.  The conversions themselves live with
//! the embedding application; these traits name the boundary.

use vstd::prelude::*;
use crate::inference::{InferenceTensor, InferenceTensorDataLayout};

verus! {

/// Produce an owned tensor from some data source.
pub trait ToTensor {
    /// Build a tensor holding its own copy of the data.
    fn to_tensor(&self, data_layout: InferenceTensorDataLayout) -> InferenceTensor<'static>;
}

/// Produce a tensor that borrows its data from the source.
pub trait ToTensorRef {
    /// Build a tensor referencing the source's memory.
    fn to_tensor_ref(&self, data_layout: InferenceTensorDataLayout) -> InferenceTensor<'_>;
}

} // verus!
