use mediapipe_wasinn_demo::fixed::{Fixed, SCALE};
use mediapipe_wasinn_demo::postprocess::ssd_anchors_generator::{
    Anchor, SsdAnchorsError, SsdAnchorsGeneratorOptions,
};
use mediapipe_wasinn_demo::short_range_options;

fn to_f64(bits: i64) -> f64 {
    bits as f64 / 4294967296.0
}

#[test]
fn anchor_count_short_range() {
    // 128x128 input, strides [8,16,16,16], one aspect ratio, interpolated
    // extra anchor enabled: 16*16*2 + 8*8*2*3 = 896 anchors.
    let anchors = short_range_options().generate().unwrap();
    assert_eq!(anchors.len(), 896);
    // First layer: a 16x16 grid with 2 shapes per cell.
    assert_eq!(512, 16 * 16 * 2);
}

#[test]
fn anchor_values_short_range() {
    let anchors = short_range_options().generate().unwrap();
    // First cell center: (0 + 0.5) / 16 of the image, unit extent.
    let first = &anchors[0];
    assert_eq!(first.x_center.bits, SCALE / 32);
    assert_eq!(first.y_center.bits, SCALE / 32);
    assert_eq!(first.w.bits, SCALE);
    assert_eq!(first.h.bits, SCALE);
    // The second anchor of the same cell only differs in shape, and shapes
    // are forced to 1.0 here.
    assert_eq!(anchors[1], anchors[0]);
    // Last anchor sits in the last cell of the 8x8 grid: center (7.5/8).
    let last = &anchors[895];
    assert_eq!(last.x_center.bits, 15 * SCALE / 16);
    assert_eq!(last.y_center.bits, 15 * SCALE / 16);
}

#[test]
fn generate_deterministic() {
    let a = short_range_options().generate().unwrap();
    let b = short_range_options().generate().unwrap();
    assert_eq!(a, b);
}

#[test]
fn fixed_anchors_bypass() {
    let list = vec![
        Anchor {
            x_center: Fixed { bits: 1 },
            y_center: Fixed { bits: 2 },
            h: Fixed { bits: 3 },
            w: Fixed { bits: 4 },
        },
    ];
    // Deliberately broken geometry: the fixed list must win regardless.
    let mut opt = SsdAnchorsGeneratorOptions::new(
        0,
        0,
        Fixed { bits: 0 },
        Fixed { bits: 0 },
        7,
    );
    opt.multiscale_anchor_generation = true;
    opt.fixed_anchors = Some(list.clone());
    assert_eq!(opt.generate().unwrap(), list);
}

#[test]
fn geometry_errors() {
    let base = |num_layers: usize| {
        let mut o = SsdAnchorsGeneratorOptions::new(
            128,
            128,
            Fixed { bits: SCALE / 4 },
            Fixed { bits: SCALE / 2 },
            num_layers,
        );
        o.aspect_ratios.push(Fixed { bits: SCALE });
        o.strides = vec![8, 16];
        o
    };

    let mut o = base(2);
    o.multiscale_anchor_generation = true;
    assert_eq!(o.generate().unwrap_err(), SsdAnchorsError::MultiscaleUnsupported);

    let o = base(3);
    assert_eq!(o.generate().unwrap_err(), SsdAnchorsError::StrideCountMismatch);

    let mut o = base(2);
    o.strides = vec![8, 0];
    assert_eq!(o.generate().unwrap_err(), SsdAnchorsError::NonPositiveStride);

    let mut o = base(2);
    o.feature_map_width = vec![4];
    o.feature_map_height = vec![4, 4];
    assert_eq!(o.generate().unwrap_err(), SsdAnchorsError::FeatureMapCountMismatch);

    let mut o = base(2);
    o.feature_map_width = vec![4, 0];
    o.feature_map_height = vec![4, 4];
    assert_eq!(o.generate().unwrap_err(), SsdAnchorsError::NonPositiveFeatureMap);

    let mut o = base(2);
    o.input_size_width = 0;
    assert_eq!(o.generate().unwrap_err(), SsdAnchorsError::NonPositiveInputSize);
}

#[test]
fn explicit_feature_maps_take_precedence() {
    let mut o = SsdAnchorsGeneratorOptions::new(
        128,
        128,
        Fixed { bits: SCALE / 4 },
        Fixed { bits: SCALE / 2 },
        1,
    );
    o.aspect_ratios.push(Fixed { bits: SCALE });
    o.interpolated_scale_aspect_ratio = Fixed { bits: 0 };
    o.strides = vec![8];
    o.feature_map_width = vec![2];
    o.feature_map_height = vec![3];
    let anchors = o.generate().unwrap();
    // 2x3 grid, one shape per cell.
    assert_eq!(anchors.len(), 6);
    // Centers use the explicit grid: x of the first anchor is 0.5/2.
    assert_eq!(anchors[0].x_center.bits, SCALE / 4);
    assert_eq!(anchors[0].y_center.bits, SCALE / 6);
}

#[test]
fn reduced_lowest_layer_shapes() {
    let mut o = SsdAnchorsGeneratorOptions::new(
        16,
        16,
        Fixed { bits: SCALE / 4 },
        Fixed { bits: SCALE / 2 },
        1,
    );
    o.reduce_boxes_in_lowest_layer = true;
    o.interpolated_scale_aspect_ratio = Fixed { bits: 0 };
    o.strides = vec![16];
    let anchors = o.generate().unwrap();
    // One cell, three predefined boxes.
    assert_eq!(anchors.len(), 3);
    // First predefined pair: aspect 1.0 at scale 0.1.
    let w0 = to_f64(anchors[0].w.bits);
    let h0 = to_f64(anchors[0].h.bits);
    assert!((w0 - 0.1).abs() < 1e-6);
    assert!((h0 - 0.1).abs() < 1e-6);
    // Second pair: aspect 2.0 at the single-stride scale, which is the
    // minimum scale 0.25.
    let w1 = to_f64(anchors[1].w.bits);
    let h1 = to_f64(anchors[1].h.bits);
    assert!((w1 - 0.25 * 2.0f64.sqrt()).abs() < 1e-6);
    assert!((h1 - 0.25 / 2.0f64.sqrt()).abs() < 1e-6);
}
