//! Elementwise activations over score buffers.

pub mod sigmoid;
pub mod softmax;

use vstd::prelude::*;
use crate::fixed::Fixed;
use sigmoid::Sigmoid;
use softmax::Softmax;

verus! {

/// Which activation matches the paired model's training objective.
#[derive(Clone, Copy, Debug, PartialEq, Eq, Structural)]
pub enum ActivationKind {
    Sigmoid,
    Softmax,
}

/// Activate a score buffer in place with the selected transform.
pub fn activate(kind: ActivationKind, buffer: &mut Vec<Fixed>)
    ensures
        (match kind {
            ActivationKind::Sigmoid => <Vec<Fixed> as Sigmoid>::sigmoid_rel(
                *old(buffer),
                *final(buffer),
            ),
            ActivationKind::Softmax => <Vec<Fixed> as Softmax>::softmax_rel(
                *old(buffer),
                *final(buffer),
            ),
        }),
{
    match kind {
        ActivationKind::Sigmoid => buffer.sigmoid_inplace(),
        ActivationKind::Softmax => buffer.softmax_inplace(),
    }
}

} // verus!
