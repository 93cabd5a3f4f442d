//! Detector solutions built from the post-processing pipeline.

pub mod face_detection;

pub use face_detection::{
    FaceDetectionModelOutput, FaceDetectionModels, SHORT_RANGE_MIN_SCALE, SHORT_RANGE_MAX_SCALE,
    TRAIN_SCALE, short_range_options, spec_decode_one, spec_decode_list, min_int,
    sorted_by_score, sort, best, spec_keypoint, lemma_best_matches_sorted_last,
};
