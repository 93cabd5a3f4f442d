use mediapipe_wasinn_demo::fixed::{Fixed, SCALE};
use mediapipe_wasinn_demo::postprocess::ssd_anchors_generator::Anchor;
use mediapipe_wasinn_demo::postprocess::{Box2D, Pointer2D};
use mediapipe_wasinn_demo::{best, sort, FaceDetectionModelOutput, FaceDetectionModels};

fn unit_anchor() -> Anchor {
    Anchor {
        x_center: Fixed { bits: SCALE / 2 },
        y_center: Fixed { bits: SCALE / 2 },
        w: Fixed { bits: SCALE },
        h: Fixed { bits: SCALE },
    }
}

fn zero_row() -> Vec<Fixed> {
    vec![Fixed { bits: 0 }; 16]
}

#[test]
fn decode_centered_anchor_zero_regression() {
    // Anchor {0.5, 0.5, 1.0, 1.0} with an all-zero regression row keeps the
    // box center at (0.5, 0.5) with zero extent.
    let row = zero_row();
    let out = FaceDetectionModelOutput::from(&unit_anchor(), &row, Fixed { bits: SCALE });
    assert_eq!(out.face.p.x.bits, SCALE / 2);
    assert_eq!(out.face.p.y.bits, SCALE / 2);
    assert_eq!(out.face.w.bits, 0);
    assert_eq!(out.face.h.bits, 0);
    // Landmarks collapse onto the anchor center.
    assert_eq!(out.left_eye.x.bits, SCALE / 2);
    assert_eq!(out.right_eye_tragion.y.bits, SCALE / 2);
    assert_eq!(out.score.bits, SCALE);
}

#[test]
fn decode_offsets_scale_by_train_dimension() {
    // A raw offset of 64 on a unit anchor moves the center by 64/128 = 0.5.
    let mut row = zero_row();
    row[0] = Fixed { bits: 64 * SCALE };
    let out = FaceDetectionModelOutput::from(&unit_anchor(), &row, Fixed { bits: 0 });
    assert_eq!(out.face.p.x.bits, SCALE);
    assert_eq!(out.face_box().p.x.bits, SCALE);
}

#[test]
fn threshold_boundary_excludes_equal_score() {
    let anchors = vec![unit_anchor()];
    let regressors = zero_row();
    // A raw logit of zero activates to exactly 0.5.
    let threshold = Fixed { bits: SCALE / 2 };

    let mut scores = vec![Fixed { bits: 0 }];
    let out = FaceDetectionModelOutput::from_with_threshold(
        &anchors,
        &regressors,
        &mut scores,
        threshold,
    );
    assert_eq!(scores[0].bits, SCALE / 2);
    assert_eq!(out.len(), 0);

    // A hair above the threshold is included.
    let mut scores = vec![Fixed { bits: 0 }];
    let just_below = Fixed { bits: SCALE / 2 - 1 };
    let out = FaceDetectionModelOutput::from_with_threshold(
        &anchors,
        &regressors,
        &mut scores,
        just_below,
    );
    assert_eq!(out.len(), 1);
    assert_eq!(out[0].score.bits, SCALE / 2);
}

#[test]
fn decode_truncates_to_shorter_buffer() {
    // Five regression rows but only three scores: exactly three anchors are
    // decoded and neither buffer is over-read.
    let anchors = vec![unit_anchor(); 5];
    let regressors = vec![Fixed { bits: 0 }; 16 * 5];
    let mut scores = vec![Fixed { bits: 10 * SCALE }; 3];
    let out = FaceDetectionModelOutput::from_with_threshold(
        &anchors,
        &regressors,
        &mut scores,
        Fixed { bits: 0 },
    );
    assert_eq!(out.len(), 3);
    assert_eq!(scores.len(), 3);
}

fn detection_with_score(bits: i64) -> FaceDetectionModelOutput {
    FaceDetectionModelOutput::from(&unit_anchor(), &zero_row(), Fixed { bits })
}

#[test]
fn sort_orders_scores_ascending() {
    let mut d = vec![
        detection_with_score(5),
        detection_with_score(1),
        detection_with_score(4),
        detection_with_score(4),
        detection_with_score(2),
    ];
    sort(&mut d);
    assert_eq!(d.len(), 5);
    for pair in d.windows(2) {
        assert!(pair[0].score.bits <= pair[1].score.bits);
    }
    let scores: Vec<i64> = d.iter().map(|x| x.score.bits).collect();
    assert_eq!(scores, vec![1, 2, 4, 4, 5]);
}

#[test]
fn best_is_sorted_last() {
    let mut d = vec![
        detection_with_score(3),
        detection_with_score(9),
        detection_with_score(7),
    ];
    let m = best(&d).unwrap();
    sort(&mut d);
    assert_eq!(m.score.bits, d.last().unwrap().score.bits);
    assert_eq!(m.score.bits, 9);
    let empty: Vec<FaceDetectionModelOutput> = Vec::new();
    assert!(best(&empty).is_none());
}

#[test]
fn model_path_short_range() {
    assert_eq!(
        FaceDetectionModels::ShortRange.to_model_path(),
        "./assets/face_detection_short_range.tflite"
    );
}

#[test]
fn box2d_gathers_strided_slice() {
    let v: [i32; 7] = [10, 11, 12, 13, 14, 15, 16];
    let b = Box2D::from(&v, 2);
    assert_eq!(b.p.x, 10);
    assert_eq!(b.p.y, 12);
    assert_eq!(b.w, 14);
    assert_eq!(b.h, 16);
}

#[test]
fn transform_with_anchor_recenters() {
    let p = Pointer2D { x: Fixed { bits: 0 }, y: Fixed { bits: 64 * SCALE } };
    let train = Fixed { bits: 128 * SCALE };
    let r = p.transform_with_anchor(&unit_anchor(), train, train);
    assert_eq!(r.x.bits, SCALE / 2);
    assert_eq!(r.y.bits, SCALE);
}
