//! Face-detection post-processing built on a fixed-point scalar type.
//!
//! The crate turns raw neural-network regression and confidence outputs into
//! geometric detection results: it generates the grid of SSD reference boxes
//! ("anchors"), activates raw confidence logits, decodes per-anchor regression
//! offsets into absolute boxes and landmark points, and orders the resulting
//! candidates by confidence.  All scalar arithmetic is carried out in a
//! saturating Q32.32 fixed-point representation, so every step of the pipeline
//! is deterministic and fully specified.

pub mod fixed;
pub mod inference;
pub mod postprocess;
pub mod preprocess;
mod solutions;

pub use solutions::{
    FaceDetectionModelOutput, FaceDetectionModels, SHORT_RANGE_MIN_SCALE, SHORT_RANGE_MAX_SCALE,
    TRAIN_SCALE, short_range_options, spec_decode_one, spec_decode_list, min_int,
    sorted_by_score, sort, best, spec_keypoint, lemma_best_matches_sorted_last,
};
