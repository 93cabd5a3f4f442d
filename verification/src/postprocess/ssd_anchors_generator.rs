//! SSD anchor generation: a fixed grid of reference boxes matching a
//! detector's feature-map geometry.

use vstd::prelude::*;
use crate::fixed::{
    Fixed, SCALE, fx_add, fx_mul, fx_div, fx_sqrt, sat64, tdiv, abs_int,
};

verus! {

/// `0.1` in Q32.32, rounded down; the scale of the first predefined box when
/// `reduce_boxes_in_lowest_layer` is set.
pub const REDUCED_LOWEST_SCALE: i64 = 429496729;

/// A reference box: center plus extent, in normalized image coordinates.
#[derive(Clone, Copy, Debug, PartialEq, Eq, Structural)]
pub struct Anchor {
    pub x_center: Fixed,
    pub y_center: Fixed,
    pub h: Fixed,
    pub w: Fixed,
}

/// Why a geometry description was rejected.
#[derive(Clone, Copy, Debug, PartialEq, Eq, Structural)]
pub enum SsdAnchorsError {
    /// The multiscale pyramid path is not provided here.
    MultiscaleUnsupported,
    /// `strides` must have exactly one entry per layer.
    StrideCountMismatch,
    /// Every stride must be positive.
    NonPositiveStride,
    /// Explicit feature-map sizes must have exactly one entry per layer.
    FeatureMapCountMismatch,
    /// Explicit feature-map sizes must be positive.
    NonPositiveFeatureMap,
    /// Without explicit feature-map sizes, the input size must be positive.
    NonPositiveInputSize,
}

/// Options to generate anchors for SSD object detection models.
pub struct SsdAnchorsGeneratorOptions {
    /// Size of input images, in pixels.
    pub input_size_width: i32,
    pub input_size_height: i32,
    /// Min and max scales for generating anchor boxes on feature maps.
    pub min_scale: Fixed,
    pub max_scale: Fixed,
    /// The offset for the center of anchors, as a fraction of the stride.
    pub anchor_offset_x: Fixed,
    pub anchor_offset_y: Fixed,
    /// Number of output feature maps to generate anchors on.
    pub num_layers: usize,
    /// Explicit feature-map sizes; when non-empty they take precedence over
    /// stride-derived sizing.
    pub feature_map_width: Vec<i32>,
    pub feature_map_height: Vec<i32>,
    /// Strides of each output feature map.
    pub strides: Vec<i32>,
    /// Aspect ratios to generate anchors for.
    pub aspect_ratios: Vec<Fixed>,
    /// Use three predefined boxes per location in the lowest layer.
    pub reduce_boxes_in_lowest_layer: bool,
    /// When positive, one extra anchor per layer with this aspect ratio and a
    /// scale interpolated towards the next layer's scale.
    pub interpolated_scale_aspect_ratio: Fixed,
    /// Force every anchor's extent to `1.0`.
    pub fixed_anchor_size: bool,
    /// Select the multiscale pyramid path (not provided here).
    pub multiscale_anchor_generation: bool,
    /// Minimum pyramid level; multiscale path only.
    pub min_level: i32,
    /// Maximum pyramid level; multiscale path only.
    pub max_level: i32,
    /// Scale of anchor to feature stride; multiscale path only.
    pub anchor_scale: Fixed,
    /// Intermediate scales per octave; multiscale path only.
    pub scales_per_octave: i32,
    /// Whether to produce normalized coordinates; multiscale path only.
    pub normalize_coordinates: bool,
    /// Fixed list of anchors; when set, every other option is ignored.
    pub fixed_anchors: Option<Vec<Anchor>>,
}

/// The layer scale: `min_scale` when there is a single stride in total,
/// otherwise a linear interpolation across the stride indices.
pub open spec fn spec_calculate_scale(
    min_scale: int,
    max_scale: int,
    stride_index: int,
    num_strides: int,
) -> int {
    if num_strides == 1 {
        min_scale
    } else {
        sat64(min_scale + tdiv((max_scale - min_scale) * stride_index, num_strides - 1))
    }
}

/// The checks `generate` performs, in order; `None` means the geometry is
/// accepted.
pub open spec fn spec_validate(o: SsdAnchorsGeneratorOptions) -> Option<SsdAnchorsError> {
    if o.multiscale_anchor_generation {
        Some(SsdAnchorsError::MultiscaleUnsupported)
    } else if o.strides@.len() != o.num_layers {
        Some(SsdAnchorsError::StrideCountMismatch)
    } else if exists|i: int| 0 <= i < o.strides@.len() && o.strides@[i] <= 0 {
        Some(SsdAnchorsError::NonPositiveStride)
    } else if (o.feature_map_width@.len() > 0 || o.feature_map_height@.len() > 0) && !(
    o.feature_map_width@.len() == o.num_layers && o.feature_map_height@.len() == o.num_layers) {
        Some(SsdAnchorsError::FeatureMapCountMismatch)
    } else if exists|i: int|
        0 <= i < o.feature_map_width@.len() && (o.feature_map_width@[i] <= 0
            || o.feature_map_height@[i] <= 0) {
        Some(SsdAnchorsError::NonPositiveFeatureMap)
    } else if o.feature_map_width@.len() == 0 && (o.input_size_width <= 0 || o.input_size_height
        <= 0) {
        Some(SsdAnchorsError::NonPositiveInputSize)
    } else {
        None
    }
}

impl SsdAnchorsGeneratorOptions {
    /// Fresh options with the geometry's required fields and every optional
    /// field at its default.
    pub fn new(
        input_size_width: i32,
        input_size_height: i32,
        min_scale: Fixed,
        max_scale: Fixed,
        num_layers: usize,
    ) -> (r: Self)
        ensures
            r.input_size_width == input_size_width,
            r.input_size_height == input_size_height,
            r.min_scale == min_scale,
            r.max_scale == max_scale,
            r.num_layers == num_layers,
            r.anchor_offset_x@ == SCALE as int / 2,
            r.anchor_offset_y@ == SCALE as int / 2,
            r.feature_map_width@.len() == 0,
            r.feature_map_height@.len() == 0,
            r.strides@.len() == 0,
            r.aspect_ratios@.len() == 0,
            !r.reduce_boxes_in_lowest_layer,
            r.interpolated_scale_aspect_ratio@ == SCALE as int,
            !r.fixed_anchor_size,
            !r.multiscale_anchor_generation,
            r.min_level == 3,
            r.max_level == 7,
            r.anchor_scale@ == 4 * SCALE as int,
            r.scales_per_octave == 2,
            r.normalize_coordinates,
            r.fixed_anchors is None,
    {
        SsdAnchorsGeneratorOptions {
            input_size_width,
            input_size_height,
            min_scale,
            max_scale,
            anchor_offset_x: Fixed { bits: SCALE / 2 },
            anchor_offset_y: Fixed { bits: SCALE / 2 },
            num_layers,
            feature_map_width: Vec::new(),
            feature_map_height: Vec::new(),
            strides: Vec::new(),
            aspect_ratios: Vec::new(),
            reduce_boxes_in_lowest_layer: false,
            interpolated_scale_aspect_ratio: Fixed { bits: SCALE },
            fixed_anchor_size: false,
            multiscale_anchor_generation: false,
            min_level: 3,
            max_level: 7,
            anchor_scale: Fixed { bits: 4 * SCALE },
            scales_per_octave: 2,
            normalize_coordinates: true,
            fixed_anchors: None,
        }
    }

}

/// Interpolated layer scale for one stride index.
fn scale_for(min_scale: Fixed, max_scale: Fixed, stride_index: usize, num_strides: usize) -> (r:
    Fixed)
    requires
        1 <= num_strides,
        stride_index < num_strides,
    ensures
        r@ == spec_calculate_scale(
            min_scale@,
            max_scale@,
            stride_index as int,
            num_strides as int,
        ),
{
    if num_strides == 1 {
            min_scale
        } else {
            let d: i128 = max_scale.bits as i128 - min_scale.bits as i128;
            let neg = d < 0;
            let mag: u128 = if d < 0 {
                (-d) as u128
            } else {
                d as u128
            };
            proof {
                crate::fixed::lemma_abs_mul(d as int, stride_index as int);
                assert(mag * (stride_index as u128) <= 0x1_0000_0000_0000_0000
                    * 0xffff_ffff_ffff_ffff) by (nonlinear_arith)
                    requires
                        0 <= (mag as int) && (mag as int) <= 0x1_0000_0000_0000_0000,
                        0 <= (stride_index as int) && (stride_index as int)
                            <= 0xffff_ffff_ffff_ffff,
                ;
                assert(mag as int * (stride_index as int) <= (num_strides as int - 1) * (
                mag as int)) by (nonlinear_arith)
                    requires
                        0 <= mag as int,
                        0 <= stride_index as int,
                        stride_index as int <= num_strides as int - 1,
                ;
                vstd::arithmetic::div_mod::lemma_div_pos_is_pos(
                    mag as int * (stride_index as int),
                    num_strides as int - 1,
                );
                vstd::arithmetic::div_mod::lemma_multiply_divide_le(
                    mag as int * (stride_index as int),
                    num_strides as int - 1,
                    mag as int,
                );
            }
            let num: u128 = mag * (stride_index as u128);
            let q: u128 = num / ((num_strides - 1) as u128);
            let sq: i128 = if neg {
                -(q as i128)
            } else {
                q as i128
            };
            let total: i128 = min_scale.bits as i128 + sq;
            if total > i64::MAX as i128 {
                Fixed { bits: i64::MAX }
            } else if total < i64::MIN as i128 {
                Fixed { bits: i64::MIN }
            } else {
                Fixed { bits: total as i64 }
            }
    }
}

/// The first stride index past the contiguous run of `s[start]` values.
pub open spec fn run_end(s: Seq<i32>, start: int) -> int
    decreases s.len() - start,
{
    if start + 1 < s.len() && s[start + 1] == s[start] {
        run_end(s, start + 1)
    } else {
        start + 1
    }
}

/// The aspect-ratio/scale pairs contributed by one stride index of a run.
pub open spec fn layer_pairs(o: SsdAnchorsGeneratorOptions, j: int) -> Seq<(int, int)> {
    let scale = spec_calculate_scale(o.min_scale@, o.max_scale@, j, o.strides@.len() as int);
    if j == 0 && o.reduce_boxes_in_lowest_layer {
        seq![
            (SCALE as int, REDUCED_LOWEST_SCALE as int),
            (2 * SCALE as int, scale),
            ((SCALE as int) / 2, scale),
        ]
    } else {
        let base = Seq::new(o.aspect_ratios@.len(), |i: int| (o.aspect_ratios@[i]@, scale));
        if o.interpolated_scale_aspect_ratio@ > 0 {
            let scale_next = if j == o.strides@.len() - 1 {
                SCALE as int
            } else {
                spec_calculate_scale(
                    o.min_scale@,
                    o.max_scale@,
                    j + 1,
                    o.strides@.len() as int,
                )
            };
            base.push((o.interpolated_scale_aspect_ratio@, fx_sqrt(fx_mul(scale, scale_next))))
        } else {
            base
        }
    }
}

/// All pairs contributed by the stride indices `from .. to`.
pub open spec fn run_pairs(o: SsdAnchorsGeneratorOptions, from: int, to: int) -> Seq<(int, int)>
    decreases to - from,
{
    if from >= to {
        Seq::empty()
    } else {
        layer_pairs(o, from) + run_pairs(o, from + 1, to)
    }
}

/// Anchor extent for one aspect-ratio/scale pair: `(width, height)`.
pub open spec fn shape_of(p: (int, int)) -> (int, int) {
    let rs = fx_sqrt(p.0);
    (fx_mul(p.1, rs), fx_div(p.1, rs))
}

/// Rounding-up integer division.
pub open spec fn ceil_div(a: int, b: int) -> int {
    (a + b - 1) / b
}

/// Grid size of one layer: explicit feature-map entries when supplied, else
/// the input size divided by the stride, rounded up; `(width, height)`.
pub open spec fn spec_feature_map_dims(o: SsdAnchorsGeneratorOptions, layer_id: int) -> (
    int,
    int,
) {
    if o.feature_map_height@.len() > 0 && o.feature_map_width@.len() > 0 {
        (o.feature_map_width@[layer_id] as int, o.feature_map_height@[layer_id] as int)
    } else {
        (
            ceil_div(o.input_size_width as int, o.strides@[layer_id] as int),
            ceil_div(o.input_size_height as int, o.strides@[layer_id] as int),
        )
    }
}

/// Normalized center coordinate of a grid cell.
pub open spec fn spec_center(coord: int, off: int, cells: int) -> int {
    tdiv(fx_add(coord * (SCALE as int), off), cells)
}

/// Build an anchor from bit values.
pub open spec fn anchor_of(xc: int, yc: int, w: int, h: int) -> Anchor {
    Anchor {
        x_center: Fixed { bits: xc as i64 },
        y_center: Fixed { bits: yc as i64 },
        w: Fixed { bits: w as i64 },
        h: Fixed { bits: h as i64 },
    }
}

/// The anchors of one grid cell, one per shape, in shape order.
pub open spec fn spec_cell(
    o: SsdAnchorsGeneratorOptions,
    shapes: Seq<(int, int)>,
    fmw: int,
    fmh: int,
    x: int,
    y: int,
) -> Seq<Anchor> {
    Seq::new(
        shapes.len(),
        |i: int|
            {
                let xc = spec_center(x, o.anchor_offset_x@, fmw);
                let yc = spec_center(y, o.anchor_offset_y@, fmh);
                if o.fixed_anchor_size {
                    anchor_of(xc, yc, SCALE as int, SCALE as int)
                } else {
                    anchor_of(xc, yc, shapes[i].0, shapes[i].1)
                }
            },
    )
}

/// The anchors of one grid row from column `x` on.
pub open spec fn spec_row(
    o: SsdAnchorsGeneratorOptions,
    shapes: Seq<(int, int)>,
    fmw: int,
    fmh: int,
    y: int,
    x: int,
) -> Seq<Anchor>
    decreases fmw - x,
{
    if x >= fmw {
        Seq::empty()
    } else {
        spec_cell(o, shapes, fmw, fmh, x, y) + spec_row(o, shapes, fmw, fmh, y, x + 1)
    }
}

/// The anchors of a whole grid from row `y` on, rows outer, columns inner.
pub open spec fn spec_grid(
    o: SsdAnchorsGeneratorOptions,
    shapes: Seq<(int, int)>,
    fmw: int,
    fmh: int,
    y: int,
) -> Seq<Anchor>
    decreases fmh - y,
{
    if y >= fmh {
        Seq::empty()
    } else {
        spec_row(o, shapes, fmw, fmh, y, 0) + spec_grid(o, shapes, fmw, fmh, y + 1)
    }
}

/// Every anchor of the layer group starting at `layer_id`.
pub open spec fn spec_layer_anchors(o: SsdAnchorsGeneratorOptions, layer_id: int) -> Seq<
    Anchor,
> {
    let shapes = run_pairs(o, layer_id, run_end(o.strides@, layer_id)).map_values(
        |p: (int, int)| shape_of(p),
    );
    let dims = spec_feature_map_dims(o, layer_id);
    spec_grid(o, shapes, dims.0, dims.1, 0)
}

/// `j` starts a new contiguous-stride group (or lies past the end).
pub open spec fn is_group_start(s: Seq<i32>, j: int) -> bool {
    j == 0 || j >= s.len() || s[j] != s[j - 1]
}

/// Every anchor of the layers from `j` on; groups contribute at their first
/// stride index.
pub open spec fn spec_layers(o: SsdAnchorsGeneratorOptions, j: int) -> Seq<Anchor>
    decreases o.num_layers as int - j,
{
    if j >= o.num_layers {
        Seq::empty()
    } else if j == 0 || o.strides@[j] != o.strides@[j - 1] {
        spec_layer_anchors(o, j) + spec_layers(o, j + 1)
    } else {
        spec_layers(o, j + 1)
    }
}

/// Normalized center coordinate of a grid cell.
fn grid_center(coord: i32, off: Fixed, cells: i32) -> (r: Fixed)
    requires
        0 <= coord,
        1 <= cells,
    ensures
        r@ == spec_center(coord as int, off@, cells as int),
{
    proof {
        assert(0 <= (coord as int) * (SCALE as int) && (coord as int) * (SCALE as int)
            <= 0x7fff_ffff * 0x1_0000_0000) by (nonlinear_arith)
            requires
                0 <= (coord as int) && (coord as int) <= 0x7fff_ffff,
        ;
    }
    let cf = Fixed { bits: (coord as i64) * SCALE };
    cf.add(off).div_int(cells as i64)
}

impl SsdAnchorsGeneratorOptions {
    /// Generate the anchor grid this geometry describes.
    ///
    /// A fixed anchor list is returned verbatim, whatever the other fields
    /// hold.  Otherwise the geometry is validated first, and the anchors of
    /// each contiguous-stride layer group are emitted row-major, one anchor
    /// per shape per cell.
    #[verifier::loop_isolation(false)]
    #[verifier::rlimit(100)]
    pub fn generate(self) -> (r: Result<Vec<Anchor>, SsdAnchorsError>)
        ensures
            (match self.fixed_anchors {
                Some(list) => r == Ok::<Vec<Anchor>, SsdAnchorsError>(list),
                None => match spec_validate(self) {
                    Some(e) => r == Err::<Vec<Anchor>, SsdAnchorsError>(e),
                    None => r is Ok && r->Ok_0@ == spec_layers(self, 0),
                },
            }),
    {
        let SsdAnchorsGeneratorOptions {
            input_size_width,
            input_size_height,
            min_scale,
            max_scale,
            anchor_offset_x,
            anchor_offset_y,
            num_layers,
            feature_map_width,
            feature_map_height,
            strides,
            aspect_ratios,
            reduce_boxes_in_lowest_layer,
            interpolated_scale_aspect_ratio,
            fixed_anchor_size,
            multiscale_anchor_generation,
            min_level: _,
            max_level: _,
            anchor_scale: _,
            scales_per_octave: _,
            normalize_coordinates: _,
            fixed_anchors,
        } = self;
        match fixed_anchors {
            Some(list) => {
                return Ok(list);
            },
            None => {},
        }
        if multiscale_anchor_generation {
            return Err(SsdAnchorsError::MultiscaleUnsupported);
        }
        if strides.len() != num_layers {
            return Err(SsdAnchorsError::StrideCountMismatch);
        }
        let mut vi: usize = 0;
        while vi < strides.len()
            invariant
                vi <= strides@.len(),
                forall|t: int| 0 <= t < vi ==> #[trigger] strides@[t] > 0,
            decreases strides@.len() - vi,
        {
            if strides[vi] <= 0 {
                return Err(SsdAnchorsError::NonPositiveStride);
            }
            vi = vi + 1;
        }
        if (feature_map_width.len() > 0 || feature_map_height.len() > 0) && !(
        feature_map_width.len() == num_layers && feature_map_height.len() == num_layers) {
            return Err(SsdAnchorsError::FeatureMapCountMismatch);
        }
        let mut vj: usize = 0;
        while vj < feature_map_width.len()
            invariant
                vj <= feature_map_width@.len(),
                feature_map_width@.len() > 0 ==> feature_map_height@.len()
                    == feature_map_width@.len(),
                forall|t: int|
                    0 <= t < vj ==> #[trigger] feature_map_width@[t] > 0
                        && feature_map_height@[t] > 0,
            decreases feature_map_width@.len() - vj,
        {
            if feature_map_width[vj] <= 0 || feature_map_height[vj] <= 0 {
                return Err(SsdAnchorsError::NonPositiveFeatureMap);
            }
            vj = vj + 1;
        }
        if feature_map_width.len() == 0 && (input_size_width <= 0 || input_size_height <= 0) {
            return Err(SsdAnchorsError::NonPositiveInputSize);
        }
        assert(spec_validate(self) is None);

        let mut ans: Vec<Anchor> = Vec::new();
        let mut layer_id: usize = 0;
        while layer_id < num_layers
            invariant
                layer_id <= num_layers,
                is_group_start(strides@, layer_id as int),
                spec_layers(self, 0) =~= ans@ + spec_layers(self, layer_id as int),
            decreases num_layers - layer_id,
        {
            let ghost ans_at_layer = ans@;
            let mut ars: Vec<Fixed> = Vec::new();
            let mut scs: Vec<Fixed> = Vec::new();
            let mut last: usize = layer_id;
            while last < strides.len() && strides[last] == strides[layer_id]
                invariant
                    layer_id <= last <= strides@.len(),
                    forall|j: int|
                        layer_id <= j < last ==> #[trigger] strides@[j] == strides@[layer_id as int],
                    ars@.len() == scs@.len(),
                    ars@.len() == run_pairs(self, layer_id as int, last as int).len(),
                    forall|p: int|
                        0 <= p < ars@.len() ==> #[trigger] ars@[p]@ == run_pairs(
                            self,
                            layer_id as int,
                            last as int,
                        )[p].0 && scs@[p]@ == run_pairs(
                            self,
                            layer_id as int,
                            last as int,
                        )[p].1,
                decreases strides@.len() - last,
            {
                let ghost pre_pairs = run_pairs(self, layer_id as int, last as int);
                let ghost new_pairs = layer_pairs(self, last as int);
                let ghost ars_entry = ars@;
                let ghost scs_entry = scs@;
                let scale = scale_for(min_scale, max_scale, last, strides.len());
                if last == 0 && reduce_boxes_in_lowest_layer {
                    ars.push(Fixed { bits: SCALE });
                    scs.push(Fixed { bits: REDUCED_LOWEST_SCALE });
                    ars.push(Fixed { bits: 2 * SCALE });
                    scs.push(scale);
                    ars.push(Fixed { bits: 0x8000_0000 });
                    scs.push(scale);
                    proof {
                        assert(new_pairs.len() == 3);
                        assert(ars@ =~= ars_entry + seq![
                            Fixed { bits: SCALE },
                            Fixed { bits: (2 * SCALE) as i64 },
                            Fixed { bits: 0x8000_0000 },
                        ]);
                        assert(scs@ =~= scs_entry + seq![
                            Fixed { bits: REDUCED_LOWEST_SCALE },
                            scale,
                            scale,
                        ]);
                    }
                } else {
                    let ghost ars_before = ars@;
                    let ghost scs_before = scs@;
                    let mut ai: usize = 0;
                    while ai < aspect_ratios.len()
                        invariant
                            ai <= aspect_ratios@.len(),
                            ars@.len() == ars_before.len() + ai,
                            scs@.len() == ars@.len(),
                            ars@ =~= ars_before + aspect_ratios@.subrange(0, ai as int),
                            scs@.subrange(0, scs_before.len() as int) =~= scs_before,
                            forall|p: int|
                                scs_before.len() <= p < scs@.len() ==> #[trigger] scs@[p]
                                    == scale,
                        decreases aspect_ratios@.len() - ai,
                    {
                        ars.push(aspect_ratios[ai]);
                        scs.push(scale);
                        ai = ai + 1;
                    }
                    if interpolated_scale_aspect_ratio.bits > 0 {
                        let scale_next = if last == strides.len() - 1 {
                            Fixed { bits: SCALE }
                        } else {
                            scale_for(min_scale, max_scale, last + 1, strides.len())
                        };
                        scs.push(scale.mul(scale_next).sqrt());
                        ars.push(interpolated_scale_aspect_ratio);
                    }
                    proof {
                        assert(ars@.subrange(0, ars_entry.len() as int) =~= ars_entry);
                        assert(scs@.subrange(0, scs_entry.len() as int) =~= scs_entry);
                    }
                }
                proof {
                    lemma_run_pairs_snoc(self, layer_id as int, last as int);
                    assert(ars@.len() == pre_pairs.len() + new_pairs.len());
                    assert forall|p: int| 0 <= p < ars@.len() implies #[trigger] ars@[p]@
                        == (pre_pairs + new_pairs)[p].0 && scs@[p]@ == (pre_pairs
                        + new_pairs)[p].1 by {
                        if p < pre_pairs.len() {
                            assert(ars@[p] == ars_entry[p]);
                            assert(scs@[p] == scs_entry[p]);
                            assert(ars_entry[p]@ == pre_pairs[p].0);
                            assert(scs_entry[p]@ == pre_pairs[p].1);
                        } else {
                            assert((pre_pairs + new_pairs)[p] == new_pairs[p
                                - pre_pairs.len()]);
                        }
                    }
                }
                last = last + 1;
            }
            proof {
                lemma_run_end_agrees(strides@, layer_id as int, last as int);
            }
            let ghost shapes = run_pairs(self, layer_id as int, last as int).map_values(
                |p: (int, int)| shape_of(p),
            );
            let mut anchor_w: Vec<Fixed> = Vec::new();
            let mut anchor_h: Vec<Fixed> = Vec::new();
            let mut si: usize = 0;
            while si < ars.len()
                invariant
                    si <= ars@.len(),
                    anchor_w@.len() == si,
                    anchor_h@.len() == si,
                    forall|p: int|
                        0 <= p < si ==> #[trigger] anchor_w@[p]@ == shapes[p].0
                            && anchor_h@[p]@ == shapes[p].1,
                decreases ars@.len() - si,
            {
                let rs = ars[si].sqrt();
                anchor_h.push(scs[si].div(rs));
                anchor_w.push(scs[si].mul(rs));
                si = si + 1;
            }
            let fm_dims: (i32, i32) = if feature_map_height.len() > 0 && feature_map_width.len()
                > 0 {
                (feature_map_width[layer_id], feature_map_height[layer_id])
            } else {
                let s = strides[layer_id];
                proof {
                    let a = input_size_width as int;
                    let b = input_size_height as int;
                    let sv = s as int;
                    assert(a + sv - 1 <= sv * a) by (nonlinear_arith)
                        requires
                            1 <= a,
                            1 <= sv,
                    ;
                    assert(b + sv - 1 <= sv * b) by (nonlinear_arith)
                        requires
                            1 <= b,
                            1 <= sv,
                    ;
                    vstd::arithmetic::div_mod::lemma_multiply_divide_le(a + sv - 1, sv, a);
                    vstd::arithmetic::div_mod::lemma_multiply_divide_le(b + sv - 1, sv, b);
                    vstd::arithmetic::div_mod::lemma_div_is_ordered(sv, a + sv - 1, sv);
                    vstd::arithmetic::div_mod::lemma_div_is_ordered(sv, b + sv - 1, sv);
                    vstd::arithmetic::div_mod::lemma_div_by_self(sv);
                }
                let w64: u64 = ((input_size_width as u64) + (s as u64) - 1) / (s as u64);
                let h64: u64 = ((input_size_height as u64) + (s as u64) - 1) / (s as u64);
                (w64 as i32, h64 as i32)
            };
            let fm_w: i32 = fm_dims.0;
            let fm_h: i32 = fm_dims.1;
            proof {
                assert(spec_feature_map_dims(self, layer_id as int) == (
                    fm_w as int,
                    fm_h as int,
                ));
            }
            let ghost gw = fm_w as int;
            let ghost gh = fm_h as int;
            let ghost ans_before_grid = ans@;
            let mut y: i32 = 0;
            while y < fm_h
                invariant
                    0 <= y <= fm_h,
                    ans_before_grid + spec_grid(self, shapes, gw, gh, 0) =~= ans@ + spec_grid(
                        self,
                        shapes,
                        gw,
                        gh,
                        y as int,
                    ),
                decreases fm_h - y,
            {
                let ghost ans_before_row = ans@;
                let mut x: i32 = 0;
                while x < fm_w
                    invariant
                        0 <= x <= fm_w,
                        0 <= y < fm_h,
                        ans_before_row + spec_row(self, shapes, gw, gh, y as int, 0) =~= ans@
                            + spec_row(self, shapes, gw, gh, y as int, x as int),
                    decreases fm_w - x,
                {
                    let ghost ans_before_cell = ans@;
                    let ghost cell = spec_cell(self, shapes, gw, gh, x as int, y as int);
                    let mut aid: usize = 0;
                    while aid < anchor_w.len()
                        invariant
                            aid <= anchor_w@.len(),
                            0 <= x < fm_w,
                            0 <= y < fm_h,
                            ans@ =~= ans_before_cell + cell.take(aid as int),
                        decreases anchor_w@.len() - aid,
                    {
                        let xc = grid_center(x, anchor_offset_x, fm_w);
                        let yc = grid_center(y, anchor_offset_y, fm_h);
                        let a = if fixed_anchor_size {
                            Anchor {
                                x_center: xc,
                                y_center: yc,
                                w: Fixed { bits: SCALE },
                                h: Fixed { bits: SCALE },
                            }
                        } else {
                            Anchor {
                                x_center: xc,
                                y_center: yc,
                                w: anchor_w[aid],
                                h: anchor_h[aid],
                            }
                        };
                        ans.push(a);
                        proof {
                            lemma_fits_i64(
                                fx_add((x as int) * (SCALE as int), anchor_offset_x@),
                                gw,
                            );
                            lemma_fits_i64(
                                fx_add((y as int) * (SCALE as int), anchor_offset_y@),
                                gh,
                            );
                            assert(xc@ == spec_center(x as int, anchor_offset_x@, gw));
                            assert(yc@ == spec_center(y as int, anchor_offset_y@, gh));
                            if !fixed_anchor_size {
                                assert(anchor_w@[aid as int]@ == shapes[aid as int].0);
                                assert(anchor_h@[aid as int]@ == shapes[aid as int].1);
                            }
                            assert(a == cell[aid as int]);
                            assert(cell.take(aid as int + 1) =~= cell.take(aid as int).push(
                                cell[aid as int],
                            ));
                        }
                        aid = aid + 1;
                    }
                    proof {
                        assert(cell.take(anchor_w@.len() as int) =~= cell);
                        assert(spec_row(self, shapes, gw, gh, y as int, x as int) == cell
                            + spec_row(self, shapes, gw, gh, y as int, x as int + 1));
                    }
                    x = x + 1;
                }
                proof {
                    assert(spec_row(self, shapes, gw, gh, y as int, fm_w as int)
                        =~= Seq::empty());
                    assert(spec_grid(self, shapes, gw, gh, y as int) == spec_row(
                        self,
                        shapes,
                        gw,
                        gh,
                        y as int,
                        0,
                    ) + spec_grid(self, shapes, gw, gh, y as int + 1));
                }
                y = y + 1;
            }
            proof {
                assert(spec_grid(self, shapes, gw, gh, fm_h as int) =~= Seq::empty());
                assert(ans@ =~= ans_at_layer + spec_layer_anchors(self, layer_id as int));
                lemma_layers_skip(self, layer_id as int);
                assert(spec_layers(self, 0) =~= ans@ + spec_layers(self, last as int));
            }
            layer_id = last;
        }
        proof {
            assert(spec_layers(self, num_layers as int) =~= Seq::empty());
        }
        Ok(ans)
    }
}

/// Truncating division by a positive divisor keeps a value in the `i64`
/// range.
proof fn lemma_fits_i64(a: int, b: int)
    requires
        i64::MIN as int <= a <= i64::MAX as int,
        1 <= b,
    ensures
        i64::MIN as int <= tdiv(a, b) <= i64::MAX as int,
{
    vstd::arithmetic::div_mod::lemma_div_pos_is_pos(abs_int(a), b);
    vstd::arithmetic::div_mod::lemma_div_nonincreasing(abs_int(a), b);
}

/// A row holds one anchor per shape for each remaining column.
proof fn lemma_row_len(
    o: SsdAnchorsGeneratorOptions,
    shapes: Seq<(int, int)>,
    fmw: int,
    fmh: int,
    y: int,
    x: int,
)
    requires
        0 <= x <= fmw,
    ensures
        spec_row(o, shapes, fmw, fmh, y, x).len() == (fmw - x) * shapes.len(),
    decreases fmw - x,
{
    if x < fmw {
        lemma_row_len(o, shapes, fmw, fmh, y, x + 1);
        assert((fmw - x) * shapes.len() == (fmw - x - 1) * shapes.len() + shapes.len())
            by (nonlinear_arith);
    } else {
        assert((fmw - x) * shapes.len() == 0) by (nonlinear_arith)
            requires
                fmw - x == 0,
        ;
    }
}

/// A grid holds one row of anchors for each remaining row index.
proof fn lemma_grid_len(
    o: SsdAnchorsGeneratorOptions,
    shapes: Seq<(int, int)>,
    fmw: int,
    fmh: int,
    y: int,
)
    requires
        0 <= y <= fmh,
        0 <= fmw,
    ensures
        spec_grid(o, shapes, fmw, fmh, y).len() == (fmh - y) * fmw * shapes.len(),
    decreases fmh - y,
{
    if y < fmh {
        lemma_grid_len(o, shapes, fmw, fmh, y + 1);
        lemma_row_len(o, shapes, fmw, fmh, y, 0);
        assert((fmh - y) * fmw * shapes.len() == (fmh - y - 1) * fmw * shapes.len() + fmw
            * shapes.len()) by (nonlinear_arith);
    } else {
        assert((fmh - y) * fmw * shapes.len() == 0) by (nonlinear_arith)
            requires
                fmh - y == 0,
        ;
    }
}

/// The anchor-count invariant of one layer group: the group contributes
/// exactly one anchor per shape for every cell of its feature-map grid.
pub proof fn lemma_layer_anchor_count(o: SsdAnchorsGeneratorOptions, layer_id: int)
    requires
        0 <= spec_feature_map_dims(o, layer_id).0,
        0 <= spec_feature_map_dims(o, layer_id).1,
    ensures
        spec_layer_anchors(o, layer_id).len() == spec_feature_map_dims(o, layer_id).1
            * spec_feature_map_dims(o, layer_id).0 * run_pairs(
            o,
            layer_id,
            run_end(o.strides@, layer_id),
        ).len(),
{
    let shapes = run_pairs(o, layer_id, run_end(o.strides@, layer_id)).map_values(
        |p: (int, int)| shape_of(p),
    );
    let dims = spec_feature_map_dims(o, layer_id);
    lemma_grid_len(o, shapes, dims.0, dims.1, 0);
}

/// Anchor generation is deterministic: it is a function of the options
/// alone, so any two sequences meeting `generate`'s accepted-geometry
/// contract for equal options are equal, order and values alike.
pub proof fn lemma_generate_deterministic(
    o1: SsdAnchorsGeneratorOptions,
    o2: SsdAnchorsGeneratorOptions,
    r1: Seq<Anchor>,
    r2: Seq<Anchor>,
)
    requires
        o1 == o2,
        r1 == spec_layers(o1, 0),
        r2 == spec_layers(o2, 0),
    ensures
        r1 == r2,
{
}

/// Bounds and contents of a contiguous-stride run.
proof fn lemma_run_end_props(s: Seq<i32>, start: int)
    requires
        0 <= start < s.len(),
    ensures
        start < run_end(s, start) <= s.len(),
        forall|j: int| start <= j < run_end(s, start) ==> s[j] == s[start],
        run_end(s, start) == s.len() || s[run_end(s, start)] != s[start],
    decreases s.len() - start,
{
    if start + 1 < s.len() && s[start + 1] == s[start] {
        lemma_run_end_props(s, start + 1);
    }
}

/// A scan that stopped at the first differing stride found the run's end.
proof fn lemma_run_end_agrees(s: Seq<i32>, start: int, e: int)
    requires
        0 <= start < s.len(),
        start < e <= s.len(),
        forall|j: int| start <= j < e ==> s[j] == s[start],
        e == s.len() || s[e] != s[start],
    ensures
        run_end(s, start) == e,
    decreases s.len() - start,
{
    if start + 1 < s.len() && s[start + 1] == s[start] {
        assert(e > start + 1);
        lemma_run_end_agrees(s, start + 1, e);
    } else {
        if e > start + 1 {
            assert(s[start + 1] == s[start]);
        }
    }
}

/// Extending a run by one stride index appends that index's pairs.
proof fn lemma_run_pairs_snoc(o: SsdAnchorsGeneratorOptions, from: int, to: int)
    requires
        from <= to,
    ensures
        run_pairs(o, from, to + 1) =~= run_pairs(o, from, to) + layer_pairs(o, to),
    decreases to - from,
{
    if from == to {
        assert(run_pairs(o, from + 1, to + 1) =~= Seq::empty());
        assert(run_pairs(o, from, to + 1) =~= layer_pairs(o, from) + Seq::empty());
    } else {
        lemma_run_pairs_snoc(o, from + 1, to);
    }
}

/// Skipping the non-leading indices of a group leaves the layer sequence
/// unchanged.
proof fn lemma_layers_chain(o: SsdAnchorsGeneratorOptions, m: int, k: int)
    requires
        0 < m <= k,
        k <= o.num_layers,
        o.strides@.len() == o.num_layers,
        forall|t: int| m <= t < k ==> #[trigger] o.strides@[t] == o.strides@[t - 1],
    ensures
        spec_layers(o, m) == spec_layers(o, k),
    decreases k - m,
{
    if m < k {
        lemma_layers_chain(o, m + 1, k);
    }
}

/// One whole group of layers contributes exactly its leading layer's grid.
proof fn lemma_layers_skip(o: SsdAnchorsGeneratorOptions, j: int)
    requires
        0 <= j < o.num_layers,
        o.strides@.len() == o.num_layers,
        is_group_start(o.strides@, j),
    ensures
        spec_layers(o, j) =~= spec_layer_anchors(o, j) + spec_layers(
            o,
            run_end(o.strides@, j),
        ),
        is_group_start(o.strides@, run_end(o.strides@, j)),
{
    let s = o.strides@;
    let k = run_end(s, j);
    lemma_run_end_props(s, j);
    assert(spec_layers(o, j) == spec_layer_anchors(o, j) + spec_layers(o, j + 1));
    lemma_layers_chain(o, j + 1, k);
}

} // verus!
