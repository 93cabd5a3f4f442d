//! Face detection: decoding model output rows into boxes and landmarks,
//! filtering by confidence, and ordering the results.
//!
//! Scores are fixed-point values, so their order is total; the undefined
//! comparisons that floating-point NaN would bring into sorting and
//! best-candidate selection cannot arise here.

use vstd::prelude::*;
use crate::fixed::{Fixed, SCALE, fx_add, fx_sub, fx_mul, fx_div, tdiv, spec_sigmoid};
use crate::postprocess::{Pointer2D, Box2D, spec_transform_coord};
use crate::postprocess::ssd_anchors_generator::{Anchor, SsdAnchorsGeneratorOptions};
use crate::postprocess::ops::sigmoid::Sigmoid;

verus! {

/// The square input dimension the paired model was trained on (`128.0` in
/// Q32.32); regression offsets are divided by it on every axis.
pub const TRAIN_SCALE: i64 = 0x80_0000_0000;

/// `0.1484375` (19/128) in Q32.32: the short-range model's minimum scale.
pub const SHORT_RANGE_MIN_SCALE: i64 = 637534208;

/// `0.75` in Q32.32: the short-range model's maximum scale.
pub const SHORT_RANGE_MAX_SCALE: i64 = 3221225472;

/// The face-detection model files this crate knows about.
#[derive(Debug, Clone, Copy)]
pub enum FaceDetectionModels {
    ShortRange,
    ShortRangeQuantized,
    FullRangeDense,
    FullRangeSparse,
}

impl FaceDetectionModels {
    /// The on-disk path of the model; only the short-range model is bundled.
    pub fn to_model_path(self) -> (r: &'static str)
        requires
            self is ShortRange,
        ensures
            r@ == "./assets/face_detection_short_range.tflite"@,
    {
        match self {
            FaceDetectionModels::ShortRange => "./assets/face_detection_short_range.tflite",
            _ => vstd::pervasive::unreached(),
        }
    }
}

/// One decoded face: bounding box, six named landmarks and a confidence
/// score in `[0, 1]`.
#[derive(Debug, Clone, Copy)]
pub struct FaceDetectionModelOutput {
    pub face: Box2D<Fixed>,
    pub left_eye: Pointer2D<Fixed>,
    pub right_eye: Pointer2D<Fixed>,
    pub nose_tip: Pointer2D<Fixed>,
    pub mouse_center: Pointer2D<Fixed>,
    pub left_eye_tragion: Pointer2D<Fixed>,
    pub right_eye_tragion: Pointer2D<Fixed>,
    pub score: Fixed,
}

/// Detections compare by their confidence score alone: two detections with
/// the same score but different geometry are equal under `==`, matching the
/// ordering that [`sort`] and [`best`] use.
impl PartialEq for FaceDetectionModelOutput {
    fn eq(&self, other: &Self) -> (r: bool) {
        self.score.bits == other.score.bits
    }
}

impl vstd::std_specs::cmp::PartialEqSpecImpl for FaceDetectionModelOutput {
    open spec fn obeys_eq_spec() -> bool {
        true
    }

    open spec fn eq_spec(&self, other: &Self) -> bool {
        self.score == other.score
    }
}

impl Eq for FaceDetectionModelOutput {

}

/// One decoded landmark point of a regression row.
pub open spec fn spec_keypoint(anchor: Anchor, row: Seq<Fixed>, k: int) -> Pointer2D<Fixed> {
    Pointer2D {
        x: Fixed {
            bits: spec_transform_coord(
                row[4 + 2 * k]@,
                TRAIN_SCALE as int,
                anchor.w@,
                anchor.x_center@,
            ) as i64,
        },
        y: Fixed {
            bits: spec_transform_coord(
                row[4 + 2 * k + 1]@,
                TRAIN_SCALE as int,
                anchor.h@,
                anchor.y_center@,
            ) as i64,
        },
    }
}

/// Decode one 16-value regression row against its anchor.
pub open spec fn spec_decode_one(
    anchor: Anchor,
    row: Seq<Fixed>,
    score: Fixed,
) -> FaceDetectionModelOutput {
    let xc = spec_transform_coord(row[0]@, TRAIN_SCALE as int, anchor.w@, anchor.x_center@);
    let yc = spec_transform_coord(row[1]@, TRAIN_SCALE as int, anchor.h@, anchor.y_center@);
    let w = fx_mul(fx_div(row[2]@, TRAIN_SCALE as int), anchor.w@);
    let h = fx_mul(fx_div(row[3]@, TRAIN_SCALE as int), anchor.h@);
    let x_min = fx_sub(xc, tdiv(w, 2));
    let y_min = fx_sub(yc, tdiv(h, 2));
    let x_max = fx_add(xc, tdiv(w, 2));
    let y_max = fx_add(yc, tdiv(h, 2));
    FaceDetectionModelOutput {
        face: Box2D {
            p: Pointer2D { x: Fixed { bits: x_min as i64 }, y: Fixed { bits: y_min as i64 } },
            w: Fixed { bits: fx_sub(x_max, x_min) as i64 },
            h: Fixed { bits: fx_sub(y_max, y_min) as i64 },
        },
        left_eye: spec_keypoint(anchor, row, 0),
        right_eye: spec_keypoint(anchor, row, 1),
        nose_tip: spec_keypoint(anchor, row, 2),
        mouse_center: spec_keypoint(anchor, row, 3),
        left_eye_tragion: spec_keypoint(anchor, row, 4),
        right_eye_tragion: spec_keypoint(anchor, row, 5),
        score,
    }
}

/// The smaller of two values.
pub open spec fn min_int(a: int, b: int) -> int {
    if a < b {
        a
    } else {
        b
    }
}

/// The detections decoded from the first `n` anchors, in anchor order; a row
/// is emitted exactly when its activated score strictly exceeds the
/// threshold.
pub open spec fn spec_decode_list(
    anchors: Seq<Anchor>,
    regs: Seq<Fixed>,
    scores: Seq<Fixed>,
    threshold: Fixed,
    n: int,
) -> Seq<FaceDetectionModelOutput>
    decreases n,
{
    if n <= 0 {
        Seq::empty()
    } else {
        let prev = spec_decode_list(anchors, regs, scores, threshold, n - 1);
        if scores[n - 1]@ > threshold@ {
            prev.push(
                spec_decode_one(
                    anchors[n - 1],
                    regs.subrange(16 * (n - 1), regs.len() as int),
                    scores[n - 1],
                ),
            )
        } else {
            prev
        }
    }
}

impl FaceDetectionModelOutput {
    /// Decode one regression row against its anchor.
    pub fn from(anchor: &Anchor, value: &[Fixed], score: Fixed) -> (r: Self)
        requires
            value@.len() >= 16,
        ensures
            r == spec_decode_one(*anchor, value@, score),
    {
        let train = Fixed { bits: TRAIN_SCALE };
        let xc = value[0].div(train).mul(anchor.w).add(anchor.x_center);
        let yc = value[1].div(train).mul(anchor.h).add(anchor.y_center);
        let w = value[2].div(train).mul(anchor.w);
        let h = value[3].div(train).mul(anchor.h);
        let x_min = xc.sub(w.div_int(2));
        let y_min = yc.sub(h.div_int(2));
        let x_max = xc.add(w.div_int(2));
        let y_max = yc.add(h.div_int(2));
        let box2d = Box2D {
            p: Pointer2D { x: x_min, y: y_min },
            w: x_max.sub(x_min),
            h: y_max.sub(y_min),
        };
        let left_eye = Pointer2D { x: value[4], y: value[5] }.transform_with_anchor(
            anchor,
            train,
            train,
        );
        let right_eye = Pointer2D { x: value[6], y: value[7] }.transform_with_anchor(
            anchor,
            train,
            train,
        );
        let nose_tip = Pointer2D { x: value[8], y: value[9] }.transform_with_anchor(
            anchor,
            train,
            train,
        );
        let mouse_center = Pointer2D { x: value[10], y: value[11] }.transform_with_anchor(
            anchor,
            train,
            train,
        );
        let left_eye_tragion = Pointer2D { x: value[12], y: value[13] }.transform_with_anchor(
            anchor,
            train,
            train,
        );
        let right_eye_tragion = Pointer2D { x: value[14], y: value[15] }.transform_with_anchor(
            anchor,
            train,
            train,
        );
        FaceDetectionModelOutput {
            face: box2d,
            left_eye,
            right_eye,
            nose_tip,
            mouse_center,
            left_eye_tragion,
            right_eye_tragion,
            score,
        }
    }

    /// Activate the raw scores in place, then decode every anchor whose
    /// activated score strictly exceeds the threshold.  The decoder truncates
    /// to `min(regressors.len() / 16, scores.len())` rows rather than
    /// failing on mismatched buffers.
    #[verifier::loop_isolation(false)]
    pub fn from_with_threshold(
        anchors: &Vec<Anchor>,
        regressors: &Vec<Fixed>,
        scores: &mut Vec<Fixed>,
        score_threshold: Fixed,
    ) -> (r: Vec<FaceDetectionModelOutput>)
        requires
            anchors@.len() >= min_int(
                regressors@.len() as int / 16,
                old(scores)@.len() as int,
            ),
        ensures
            final(scores)@.len() == old(scores)@.len(),
            forall|i: int|
                0 <= i < old(scores)@.len() ==> final(scores)@[i]@ == spec_sigmoid(
                    #[trigger] old(scores)@[i]@,
                ),
            r@ == spec_decode_list(
                anchors@,
                regressors@,
                final(scores)@,
                score_threshold,
                min_int(regressors@.len() as int / 16, old(scores)@.len() as int),
            ),
    {
        scores.sigmoid_inplace();
        let a: usize = regressors.len() / 16;
        let b: usize = scores.len();
        let num: usize = if a < b {
            a
        } else {
            b
        };
        proof {
            vstd::arithmetic::div_mod::lemma_fundamental_div_mod(
                regressors@.len() as int,
                16,
            );
            vstd::arithmetic::div_mod::lemma_mod_division_less_than_divisor(
                regressors@.len() as int,
                16,
            );
        }
        let mut res: Vec<FaceDetectionModelOutput> = Vec::new();
        let mut i: usize = 0;
        while i < num
            invariant
                i <= num,
                res@ == spec_decode_list(
                    anchors@,
                    regressors@,
                    scores@,
                    score_threshold,
                    i as int,
                ),
            decreases num - i,
        {
            let score = scores[i];
            if score.bits > score_threshold.bits {
                let mut row: Vec<Fixed> = Vec::new();
                let mut k: usize = 0;
                proof {
                    assert(16 * (i as int) + 16 <= 16 * (num as int)) by (nonlinear_arith)
                        requires
                            (i as int) < (num as int),
                    ;
                    assert(16 * (num as int) <= regressors@.len()) by (nonlinear_arith)
                        requires
                            (num as int) <= regressors@.len() as int / 16,
                            regressors@.len() as int == 16 * (regressors@.len() as int / 16)
                                + (regressors@.len() as int) % 16,
                            0 <= (regressors@.len() as int) % 16,
                    ;
                }
                while k < 16
                    invariant
                        k <= 16,
                        row@.len() == k,
                        forall|t: int|
                            0 <= t < k ==> #[trigger] row@[t] == regressors@[16 * (i as int)
                                + t],
                    decreases 16 - k,
                {
                    row.push(regressors[16 * i + k]);
                    k = k + 1;
                }
                let d = Self::from(&anchors[i], row.as_slice(), score);
                proof {
                    let tail = regressors@.subrange(16 * (i as int), regressors@.len() as int);
                    assert(forall|t: int| 0 <= t < 16 ==> #[trigger] row@[t] == tail[t]);
                    assert(spec_decode_one(anchors@[i as int], row@, score) == spec_decode_one(
                        anchors@[i as int],
                        tail,
                        score,
                    ));
                }
                res.push(d);
            }
            i = i + 1;
        }
        res
    }

    /// The decoded bounding box.
    pub fn face_box(&self) -> (r: &Box2D<Fixed>)
        ensures
            *r == self.face,
    {
        &self.face
    }
}

/// Scores never decrease along the sequence.
pub open spec fn sorted_by_score(s: Seq<FaceDetectionModelOutput>) -> bool {
    forall|i: int, j: int| 0 <= i < j < s.len() ==> #[trigger] s[i].score@ <= #[trigger] s[j].score@
}

/// Reorder the detections so scores ascend; the multiset of detections is
/// unchanged.  Equal scores carry no further ordering promise.
#[verifier::loop_isolation(false)]
#[verifier::rlimit(100)]
pub fn sort(detections: &mut Vec<FaceDetectionModelOutput>)
    ensures
        sorted_by_score(final(detections)@),
        final(detections)@.to_multiset() == old(detections)@.to_multiset(),
{
    let mut out: Vec<FaceDetectionModelOutput> = Vec::new();
    proof {
        assert(detections@.subrange(0, 0) =~= Seq::<FaceDetectionModelOutput>::empty());
        assert(out@.to_multiset() =~= detections@.subrange(0, 0).to_multiset());
    }
    let mut i: usize = 0;
    while i < detections.len()
        invariant
            i <= detections@.len(),
            sorted_by_score(out@),
            out@.to_multiset() == detections@.subrange(0, i as int).to_multiset(),
        decreases detections@.len() - i,
    {
        let x = detections[i];
        let mut k: usize = 0;
        while k < out.len() && out[k].score.bits <= x.score.bits
            invariant
                k <= out@.len(),
                forall|t: int| 0 <= t < k ==> #[trigger] out@[t].score@ <= x.score@,
            decreases out@.len() - k,
        {
            k = k + 1;
        }
        let ghost out_pre = out@;
        out.insert(k, x);
        proof {
            broadcast use vstd::seq_lib::group_to_multiset_ensures;

            out_pre.insert_ensures(k as int, x);
            assert(sorted_by_score(out@)) by {
                assert forall|p: int, q: int| 0 <= p < q < out@.len() implies #[trigger] out@[p].score@
                    <= #[trigger] out@[q].score@ by {
                    if q < k {
                    } else if p >= k + 1 {
                        assert(out@[p] == out_pre[p - 1] && out@[q] == out_pre[q - 1]);
                    } else if p < k && q == k {
                        assert(out@[p] == out_pre[p]);
                    } else if p == k && q > k {
                        assert(out@[q] == out_pre[q - 1]);
                        assert(x.score@ < out_pre[k as int].score@);
                        assert(out_pre[k as int].score@ <= out_pre[q - 1].score@);
                    } else if p < k && q > k {
                        assert(out@[p] == out_pre[p] && out@[q] == out_pre[q - 1]);
                        assert(out_pre[p].score@ <= x.score@);
                        assert(x.score@ < out_pre[k as int].score@);
                        assert(out_pre[k as int].score@ <= out_pre[q - 1].score@);
                    }
                }
            }
            let front = out_pre.subrange(0, k as int);
            let back = out_pre.subrange(k as int, out_pre.len() as int);
            assert(out@ =~= front.push(x) + back);
            vstd::seq_lib::lemma_multiset_commutative(front.push(x), back);
            vstd::seq_lib::lemma_multiset_commutative(front, back);
            assert(out_pre =~= front + back);
            assert(out@.to_multiset() =~= out_pre.to_multiset().insert(x));
            assert(detections@.subrange(0, i as int + 1) =~= detections@.subrange(
                0,
                i as int,
            ).push(x));
        }
        i = i + 1;
    }
    proof {
        assert(detections@.subrange(0, detections@.len() as int) =~= detections@);
    }
    *detections = out;
}

/// The detection with the greatest score, or `None` for an empty list.  Ties
/// are broken arbitrarily.
#[verifier::loop_isolation(false)]
pub fn best(detections: &Vec<FaceDetectionModelOutput>) -> (r: Option<
    FaceDetectionModelOutput,
>)
    ensures
        (match r {
            None => detections@.len() == 0,
            Some(m) => detections@.len() > 0 && detections@.contains(m) && (forall|i: int|
                0 <= i < detections@.len() ==> #[trigger] detections@[i].score@ <= m.score@),
        }),
{
    if detections.len() == 0 {
        return None;
    }
    let mut m = detections[0];
    let mut i: usize = 1;
    while i < detections.len()
        invariant
            1 <= i <= detections@.len(),
            detections@.contains(m),
            forall|t: int| 0 <= t < i ==> #[trigger] detections@[t].score@ <= m.score@,
        decreases detections@.len() - i,
    {
        if detections[i].score.bits >= m.score.bits {
            m = detections[i];
        }
        i = i + 1;
    }
    Some(m)
}

/// The ordering law connecting `best` to `sort`: any score-ascending
/// reordering of a non-empty list ends in an element whose score is the
/// maximum that `best` reports.
pub proof fn lemma_best_matches_sorted_last(
    s: Seq<FaceDetectionModelOutput>,
    sorted: Seq<FaceDetectionModelOutput>,
    m: FaceDetectionModelOutput,
)
    requires
        sorted.to_multiset() == s.to_multiset(),
        sorted_by_score(sorted),
        s.len() > 0,
        s.contains(m),
        forall|i: int| 0 <= i < s.len() ==> #[trigger] s[i].score@ <= m.score@,
    ensures
        sorted.len() == s.len(),
        sorted.last().score@ == m.score@,
{
    broadcast use vstd::seq_lib::group_to_multiset_ensures;

    sorted.to_multiset_ensures();
    s.to_multiset_ensures();
    assert(sorted.len() == sorted.to_multiset().len());
    assert(s.len() == s.to_multiset().len());
    assert(sorted.len() == s.len());
    assert(s.to_multiset().count(m) > 0);
    assert(sorted.contains(m));
    let j = choose|j: int| 0 <= j < sorted.len() && sorted[j] == m;
    assert(sorted[j].score@ <= sorted.last().score@);
    assert(sorted.to_multiset().count(sorted.last()) > 0);
    assert(s.contains(sorted.last()));
    let t = choose|t: int| 0 <= t < s.len() && s[t] == sorted.last();
    assert(s[t].score@ <= m.score@);
}

/// The anchor geometry paired with the bundled short-range face model:
/// 128 by 128 input, four layers with strides 8, 16, 16, 16, a single unit
/// aspect ratio and unit-size anchors.
pub fn short_range_options() -> (r: SsdAnchorsGeneratorOptions)
    ensures
        r.input_size_width == 128,
        r.input_size_height == 128,
        r.min_scale@ == SHORT_RANGE_MIN_SCALE as int,
        r.max_scale@ == SHORT_RANGE_MAX_SCALE as int,
        r.num_layers == 4,
        r.anchor_offset_x@ == SCALE as int / 2,
        r.anchor_offset_y@ == SCALE as int / 2,
        r.feature_map_width@.len() == 0,
        r.feature_map_height@.len() == 0,
        r.strides@ =~= seq![8i32, 16i32, 16i32, 16i32],
        r.aspect_ratios@ =~= seq![Fixed { bits: SCALE }],
        !r.reduce_boxes_in_lowest_layer,
        r.interpolated_scale_aspect_ratio@ == SCALE as int,
        r.fixed_anchor_size,
        !r.multiscale_anchor_generation,
        r.fixed_anchors is None,
{
    let mut opt = SsdAnchorsGeneratorOptions::new(
        128,
        128,
        Fixed { bits: SHORT_RANGE_MIN_SCALE },
        Fixed { bits: SHORT_RANGE_MAX_SCALE },
        4,
    );
    opt.aspect_ratios.push(Fixed { bits: SCALE });
    opt.fixed_anchor_size = true;
    let mut strides: Vec<i32> = Vec::new();
    strides.push(8);
    strides.push(16);
    strides.push(16);
    strides.push(16);
    opt.strides = strides;
    opt
}

} // verus!
