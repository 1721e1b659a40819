use frame_infer::config::{InferencePrecision, FIX_ONE};
use frame_infer::fp16::{create_f16_to_f32_lut, create_f32_to_f16_lut, f16_table_lookup, f16_to_f32_bits, f32_to_f16_bits, q12_to_f32_bits};
use frame_infer::letterbox::{calculate_letterbox, CodecError};
use frame_infer::nms::{bbox_nms, iou_within_threshold, ResultBBOX};
use frame_infer::resize::{resize_letterbox_and_normalize, ChannelTables};
use frame_infer::results::{embedding_key, postprocess_embedding, ResultEmbedding};
use frame_infer::source::RawFrame;
use frame_infer::tensor::{f16_fixed, f32_fixed, VALUE_LIMIT};
use frame_infer::yolo::postprocess;

fn fix(v: f64) -> i64 {
    (v * FIX_ONE as f64).round() as i64
}

fn bx(x1: i64, y1: i64, x2: i64, y2: i64, class: u32, score: f64) -> ResultBBOX {
    ResultBBOX {
        x1: x1 * FIX_ONE,
        y1: y1 * FIX_ONE,
        x2: x2 * FIX_ONE,
        y2: y2 * FIX_ONE,
        class,
        score: fix(score),
    }
}

fn frame(width: u32, height: u32) -> RawFrame {
    RawFrame { data: vec![0u8; (width * height * 3) as usize], height, width, pts: 7, added_us: 0 }
}

#[test]
fn f16_decodes_common_patterns() {
    assert_eq!(f16_to_f32_bits(0x3C00), 1.0f32.to_bits());
    assert_eq!(f16_to_f32_bits(0xC000), (-2.0f32).to_bits());
    assert_eq!(f16_to_f32_bits(0x3555), 0x3EAAA000);
    assert_eq!(f16_to_f32_bits(0x0000), 0);
    assert_eq!(f16_to_f32_bits(0x8000), 0x8000_0000);
    assert_eq!(f16_to_f32_bits(0x7C00), f32::INFINITY.to_bits());
    assert_eq!(f16_to_f32_bits(0xFC00), f32::NEG_INFINITY.to_bits());
    assert!(f32::from_bits(f16_to_f32_bits(0x7E00)).is_nan());
}

#[test]
fn f16_decodes_subnormals() {
    assert_eq!(f32::from_bits(f16_to_f32_bits(0x0001)), 2.0f32.powi(-24));
    assert_eq!(f32::from_bits(f16_to_f32_bits(0x03FF)), 1023.0 * 2.0f32.powi(-24));
    assert_eq!(f32::from_bits(f16_to_f32_bits(0x8200)), -512.0 * 2.0f32.powi(-24));
}

#[test]
fn f32_encodes_to_f16_by_truncation() {
    assert_eq!(f32_to_f16_bits(1.0f32.to_bits()), 0x3C00);
    assert_eq!(f32_to_f16_bits((-2.0f32).to_bits()), 0xC000);
    assert_eq!(f32_to_f16_bits(65536.0f32.to_bits()), 0x7C00);
    assert_eq!(f32_to_f16_bits((1.0e-6f32).to_bits()), 0x0000);
    assert_eq!(f32_to_f16_bits((-1.0e-6f32).to_bits()), 0x8000);
    assert_eq!(f32_to_f16_bits(0.0f32.to_bits()), 0x0000);
}

#[test]
fn f16_round_trip_keeps_ten_fraction_bits() {
    for v in [-4.0f32, -3.999, -1.5, -0.001, 0.3333, 1.0, 2.718281, 3.99999] {
        let b = v.to_bits();
        let back = f16_to_f32_bits(f32_to_f16_bits(b));
        assert_eq!(back, b & 0xffff_e000, "value {}", v);
        assert!((f32::from_bits(back) - v).abs() <= v.abs() / 1024.0);
    }
}

#[test]
fn decoding_table_matches_single_decodes() {
    let lut = create_f16_to_f32_lut();
    assert_eq!(lut.len(), 65536);
    assert_eq!(lut[0x3C00], 1.0f32.to_bits());
    assert_eq!(lut[0xBC00], (-1.0f32).to_bits());
    assert_eq!(lut[0x0001], f16_to_f32_bits(0x0001));
}

#[test]
fn encoding_table_covers_minus_four_to_four() {
    let lut = create_f32_to_f16_lut();
    assert_eq!(lut.len(), 32768);
    assert_eq!(lut[0], 0xC400);
    assert_eq!(lut[16384], 0x0000);
    assert_eq!(lut[20480], 0x3C00);
    assert_eq!(lut[16384 + 2048], 0x3800);
    assert_eq!(lut[16383], f32_to_f16_bits((-1.0f32 / 4096.0).to_bits()));
    assert_eq!(q12_to_f32_bits(-16384), (-4.0f32).to_bits());
    assert_eq!(q12_to_f32_bits(1), (1.0f32 / 4096.0).to_bits());
    assert_eq!(q12_to_f32_bits(12345), (12345.0f32 / 4096.0).to_bits());
}

#[test]
fn fixed_point_reading_of_elements() {
    assert_eq!(f16_fixed(0x3C00), FIX_ONE);
    assert_eq!(f16_fixed(0xB800), -FIX_ONE / 2);
    assert_eq!(f16_fixed(0x0001), 1);
    assert_eq!(f16_fixed(0x7C00), VALUE_LIMIT);
    assert_eq!(f16_fixed(0x7E00), 0);
    assert_eq!(f32_fixed(1.0f32.to_bits()), FIX_ONE);
    assert_eq!(f32_fixed(0.25f32.to_bits()), FIX_ONE / 4);
    assert_eq!(f32_fixed((-320.5f32).to_bits()), -(320 * FIX_ONE + FIX_ONE / 2));
    assert_eq!(f32_fixed(1.0e30f32.to_bits()), VALUE_LIMIT);
    assert_eq!(f32_fixed(1.0e-30f32.to_bits()), 0);
    assert_eq!(f32_fixed(f32::NAN.to_bits()), 0);
}

#[test]
fn letterbox_parameters() {
    let p = calculate_letterbox(1080, 1920, 640).unwrap();
    assert_eq!(p.new_width, 640);
    assert_eq!(p.new_height, 360);
    assert_eq!(p.pad_x, 0);
    assert_eq!(p.pad_y, 140);
    let q = calculate_letterbox(1000, 500, 640).unwrap();
    assert_eq!((q.new_width, q.new_height, q.pad_x, q.pad_y), (320, 640, 160, 0));
    assert_eq!(calculate_letterbox(0, 10, 640), Err(CodecError::InvalidShape));
    assert_eq!(calculate_letterbox(10, 0, 640), Err(CodecError::InvalidShape));
}

#[test]
fn letterbox_inversion_scenario() {
    let p = calculate_letterbox(1080, 1920, 640).unwrap();
    assert_eq!(p.to_original_x(100 * FIX_ONE), 300 * FIX_ONE);
    assert_eq!(p.to_original_y(200 * FIX_ONE), 180 * FIX_ONE);
    assert_eq!(p.to_original_x(200 * FIX_ONE), 600 * FIX_ONE);
    assert_eq!(p.to_original_y(300 * FIX_ONE), 480 * FIX_ONE);
}

#[test]
fn letterbox_inversion_clamps_to_frame() {
    let p = calculate_letterbox(1080, 1920, 640).unwrap();
    assert_eq!(p.to_original_y(100 * FIX_ONE), 0);
    assert_eq!(p.to_original_y(600 * FIX_ONE), 1080 * FIX_ONE);
    assert_eq!(p.to_original_x(-5 * FIX_ONE), 0);
    assert_eq!(p.to_original_x(700 * FIX_ONE), 1920 * FIX_ONE);
}

#[test]
fn letterbox_forward_then_inverse_within_one_pixel() {
    let p = calculate_letterbox(1080, 1920, 640).unwrap();
    for x in [0i64, 1, 17, 333, 1000, 1919, 1920] {
        let v = x * FIX_ONE + 12345;
        let v = v.min(1920 * FIX_ONE);
        let forward = v * 640 / 1920 + (p.pad_x as i64) * FIX_ONE;
        let back = p.to_original_x(forward);
        assert!((back - v).abs() <= FIX_ONE);
    }
}

#[test]
fn nms_scenario_same_class() {
    let dets = vec![bx(0, 0, 10, 10, 0, 0.9), bx(1, 1, 10, 10, 0, 0.8), bx(20, 20, 30, 30, 0, 0.7)];
    let out = bbox_nms(&dets, fix(0.5));
    assert_eq!(out.len(), 2);
    assert_eq!(out[0], dets[0]);
    assert_eq!(out[1], dets[2]);
}

#[test]
fn nms_keeps_other_classes() {
    let dets = vec![bx(0, 0, 10, 10, 0, 0.9), bx(1, 1, 10, 10, 1, 0.8)];
    let out = bbox_nms(&dets, fix(0.5));
    assert_eq!(out.len(), 2);
    assert_eq!(out[0], dets[0]);
    assert_eq!(out[1], dets[1]);
}

#[test]
fn nms_orders_by_score_and_suppresses_lower() {
    let dets = vec![bx(20, 20, 30, 30, 0, 0.7), bx(1, 1, 10, 10, 0, 0.8), bx(0, 0, 10, 10, 0, 0.9)];
    let out = bbox_nms(&dets, fix(0.5));
    assert_eq!(out, vec![dets[2], dets[0]]);
    let none: Vec<ResultBBOX> = Vec::new();
    assert!(bbox_nms(&none, fix(0.5)).is_empty());
}

#[test]
fn nms_threshold_is_inclusive() {
    // IoU of these two boxes is exactly 0.5.
    let a = bx(0, 0, 10, 10, 0, 0.9);
    let b = bx(0, 0, 10, 5, 0, 0.8);
    assert!(iou_within_threshold(&a, &b, fix(0.5)));
    assert!(!iou_within_threshold(&a, &b, fix(0.49)));
    assert_eq!(bbox_nms(&vec![a, b], fix(0.5)).len(), 2);
    assert_eq!(bbox_nms(&vec![a, b], fix(0.49)).len(), 1);
}

fn fp32_output(features: usize, anchors: usize, values: &[f32]) -> Vec<u8> {
    assert_eq!(values.len(), features * anchors);
    let mut out = Vec::new();
    for v in values {
        out.extend_from_slice(&v.to_le_bytes());
    }
    out
}

#[test]
fn yolo_postprocess_decodes_filters_and_maps_back() {
    // Two classes, three anchors; layout [features][anchors].
    let values = [
        // cx
        100.0, 320.0, 500.0,
        // cy
        200.0, 320.0, 320.0,
        // w
        100.0, 40.0, 20.0,
        // h
        100.0, 40.0, 20.0,
        // class 0
        0.9, 0.1, 0.2,
        // class 1
        0.3, 0.95, 0.1,
    ];
    let bytes = fp32_output(6, 3, &values);
    let f = frame(1920, 1080);
    let out = postprocess(&bytes, &f, &vec![6, 3], InferencePrecision::FP32, fix(0.5), fix(0.5)).unwrap();
    assert_eq!(out.len(), 2);
    // Highest score first: anchor 1, class 1.
    assert_eq!(out[0].class, 1);
    assert_eq!(out[0].score, f32_fixed(0.95f32.to_bits()));
    assert_eq!(out[0].x1, 900 * FIX_ONE);
    assert_eq!(out[0].x2, 1020 * FIX_ONE);
    assert_eq!(out[0].y1, 480 * FIX_ONE);
    assert_eq!(out[0].y2, 600 * FIX_ONE);
    // Anchor 0: letterbox (50, 150)-(150, 250) maps to (150, 30)-(450, 330).
    assert_eq!(out[1].class, 0);
    assert_eq!(out[1].x1, 150 * FIX_ONE);
    assert_eq!(out[1].y1, 30 * FIX_ONE);
    assert_eq!(out[1].x2, 450 * FIX_ONE);
    assert_eq!(out[1].y2, 330 * FIX_ONE);
}

#[test]
fn yolo_postprocess_clamps_into_frame() {
    let values = [10.0f32, 150.0, 100.0, 100.0, 0.8];
    let bytes = fp32_output(5, 1, &values);
    let f = frame(1920, 1080);
    let out = postprocess(&bytes, &f, &vec![5, 1], InferencePrecision::FP32, fix(0.25), fix(0.5)).unwrap();
    assert_eq!(out.len(), 1);
    let b = out[0];
    assert_eq!(b.x1, 0);
    assert_eq!(b.y1, 0);
    assert!(b.x1 < b.x2 && b.y1 < b.y2);
    assert_eq!(b.x2, 180 * FIX_ONE);
    assert_eq!(b.y2, 180 * FIX_ONE);
    assert!(b.x2 <= 1920 * FIX_ONE && b.y2 <= 1080 * FIX_ONE);
    assert!(b.score >= 0 && b.score <= FIX_ONE);
}

#[test]
fn yolo_postprocess_half_precision() {
    // One class, one anchor: cx=320, cy=320, w=64, h=32, score=0.75.
    let halves: [u16; 5] = [0x5D00, 0x5D00, 0x5400, 0x5000, 0x3A00];
    let mut bytes = Vec::new();
    for h in halves {
        bytes.extend_from_slice(&h.to_le_bytes());
    }
    let f = frame(640, 640);
    let out = postprocess(&bytes, &f, &vec![5, 1], InferencePrecision::FP16, fix(0.5), fix(0.5)).unwrap();
    assert_eq!(out.len(), 1);
    assert_eq!(out[0].x1, 288 * FIX_ONE);
    assert_eq!(out[0].x2, 352 * FIX_ONE);
    assert_eq!(out[0].y1, 304 * FIX_ONE);
    assert_eq!(out[0].y2, 336 * FIX_ONE);
    assert_eq!(out[0].score, 3 * FIX_ONE / 4);
    let low = postprocess(&bytes, &f, &vec![5, 1], InferencePrecision::FP16, fix(0.8), fix(0.5)).unwrap();
    assert!(low.is_empty());
}

#[test]
fn yolo_postprocess_rejects_bad_shapes() {
    let bytes = fp32_output(5, 1, &[1.0, 1.0, 1.0, 1.0, 1.0]);
    let f = frame(64, 64);
    let p = InferencePrecision::FP32;
    assert_eq!(postprocess(&bytes, &f, &vec![5], p, 0, 0).unwrap_err(), CodecError::InvalidShape);
    assert_eq!(postprocess(&bytes, &f, &vec![5, 2], p, 0, 0).unwrap_err(), CodecError::InvalidShape);
    assert_eq!(postprocess(&bytes, &f, &vec![3, 1], p, 0, 0).unwrap_err(), CodecError::InvalidShape);
    assert_eq!(postprocess(&bytes, &f, &vec![5, 1], InferencePrecision::FP16, 0, 0).unwrap_err(), CodecError::InvalidShape);
    let empty = RawFrame { data: Vec::new(), height: 0, width: 64, pts: 0, added_us: 0 };
    assert_eq!(postprocess(&bytes, &empty, &vec![5, 1], p, 0, 0).unwrap_err(), CodecError::InvalidShape);
    assert!(postprocess(&Vec::new(), &f, &vec![5, 0], p, 0, 0).unwrap().is_empty());
}

fn identity_tables() -> ChannelTables {
    let r: Vec<u32> = (0..256u32).collect();
    let g: Vec<u32> = (0..256u32).map(|v| v + 1000).collect();
    let b: Vec<u32> = (0..256u32).map(|v| v + 2000).collect();
    ChannelTables { r, g, b, pad_r: 0xAAAA, pad_g: 0xBBBB, pad_b: 0xCCCC }
}

fn element(out: &[u8], e: usize, width: usize) -> u32 {
    let mut v: u32 = 0;
    for k in 0..width {
        v |= (out[e * width + k] as u32) << (8 * k);
    }
    v
}

#[test]
fn resize_letterbox_places_pixels_and_padding() {
    // 1 x 2 image into a 4 x 4 square: active rows 1..3, columns 0..4.
    let input = vec![10u8, 20, 30, 40, 50, 60];
    let t = identity_tables();
    let out = resize_letterbox_and_normalize(&input, 1, 2, 4, InferencePrecision::FP32, &t).unwrap();
    assert_eq!(out.len(), 3 * 16 * 4);
    let plane = 16;
    // Row 0 is padding.
    for dx in 0..4 {
        assert_eq!(element(&out, dx, 4), 0xAAAA);
        assert_eq!(element(&out, plane + dx, 4), 0xBBBB);
        assert_eq!(element(&out, 2 * plane + dx, 4), 0xCCCC);
    }
    // Row 1: columns 0,1 sample pixel 0, columns 2,3 sample pixel 1.
    assert_eq!(element(&out, 4, 4), 10);
    assert_eq!(element(&out, 5, 4), 10);
    assert_eq!(element(&out, 6, 4), 40);
    assert_eq!(element(&out, 7, 4), 40);
    assert_eq!(element(&out, plane + 6, 4), 1050);
    assert_eq!(element(&out, 2 * plane + 7, 4), 2060);
    // Row 3 is padding again.
    assert_eq!(element(&out, 12, 4), 0xAAAA);
}

#[test]
fn resize_letterbox_half_precision_and_errors() {
    let input = vec![10u8, 20, 30, 40, 50, 60];
    let t = identity_tables();
    let out = resize_letterbox_and_normalize(&input, 1, 2, 4, InferencePrecision::FP16, &t).unwrap();
    assert_eq!(out.len(), 3 * 16 * 2);
    assert_eq!(element(&out, 4, 2), 10);
    assert_eq!(element(&out, 0, 2), 0xAAAA);
    assert_eq!(resize_letterbox_and_normalize(&input, 2, 2, 4, InferencePrecision::FP16, &t), Err(CodecError::InvalidShape));
    assert_eq!(resize_letterbox_and_normalize(&input, 0, 2, 4, InferencePrecision::FP16, &t), Err(CodecError::InvalidShape));
}

#[test]
fn channel_tables_encode_to_half_precision() {
    let vals: Vec<u32> = (0..256u32).map(|i| (i as f32 / 255.0).to_bits()).collect();
    let pad = (114.0f32 / 255.0).to_bits();
    let t = ChannelTables::from_f32_bits(&vals, &vals, &vals, pad, pad, pad, InferencePrecision::FP16);
    assert_eq!(t.r[255], 0x3C00);
    assert_eq!(t.r[0], 0);
    assert_eq!(t.pad_r, f32_to_f16_bits(pad) as u32);
    let t32 = ChannelTables::from_f32_bits(&vals, &vals, &vals, pad, pad, pad, InferencePrecision::FP32);
    assert_eq!(t32.g[128], (128.0f32 / 255.0).to_bits());
}

#[test]
fn embedding_postprocess_decodes_both_precisions() {
    let mut raw = Vec::new();
    for h in [0x3C00u16, 0xC000, 0x0000] {
        raw.extend_from_slice(&h.to_le_bytes());
    }
    let e = postprocess_embedding(&raw, InferencePrecision::FP16).unwrap();
    assert_eq!(e.data, vec![1.0f32.to_bits(), (-2.0f32).to_bits(), 0]);
    let mut raw32 = Vec::new();
    for v in [0.5f32, -7.25] {
        raw32.extend_from_slice(&v.to_le_bytes());
    }
    let e32 = postprocess_embedding(&raw32, InferencePrecision::FP32).unwrap();
    assert_eq!(e32.data, vec![0.5f32.to_bits(), (-7.25f32).to_bits()]);
    assert_eq!(e32.get_raw_bytes(), raw32);
    assert!(postprocess_embedding(&vec![1, 2, 3], InferencePrecision::FP16).is_err());
    assert!(postprocess_embedding(&vec![1, 2, 3, 4, 5, 6], InferencePrecision::FP32).is_err());
    assert!(postprocess_embedding(&Vec::new(), InferencePrecision::FP32).unwrap().data.is_empty());
}

#[test]
fn embedding_raw_bytes_are_little_endian() {
    let e = ResultEmbedding { data: vec![0x0102_0304, 0xAABB_CCDD] };
    assert_eq!(e.get_raw_bytes(), vec![4, 3, 2, 1, 0xDD, 0xCC, 0xBB, 0xAA]);
}

#[test]
fn embedding_key_joins_source_and_pts() {
    assert_eq!(embedding_key("12", 345), "12-345");
    assert_eq!(embedding_key("cam", 0), "cam-0");
}

#[test]
fn yolo_postprocess_caps_scores_at_one() {
    // One class, one anchor: centre (320, 320), size 64, class score 2.0.
    let halves: [u16; 5] = [0x5D00, 0x5D00, 0x5400, 0x5400, 0x4000];
    let mut bytes = Vec::new();
    for h in halves {
        bytes.extend_from_slice(&h.to_le_bytes());
    }
    let out = postprocess(&bytes, &frame(640, 640), &vec![5, 1], InferencePrecision::FP16, fix(0.5), fix(0.5)).unwrap();
    assert_eq!(out.len(), 1);
    assert_eq!(out[0].score, FIX_ONE);
}

#[test]
fn yolo_postprocess_drops_empty_boxes() {
    let zeros = vec![0u8; 5 * 2];
    let out = postprocess(&zeros, &frame(640, 640), &vec![5, 1], InferencePrecision::FP16, 0, fix(0.5)).unwrap();
    assert!(out.is_empty());
    // A box entirely inside the top padding band collapses onto the frame edge.
    let values = [320.0f32, 50.0, 100.0, 40.0, 0.9];
    let bytes = fp32_output(5, 1, &values);
    let out = postprocess(&bytes, &frame(1920, 1080), &vec![5, 1], InferencePrecision::FP32, 0, fix(0.5)).unwrap();
    assert!(out.is_empty());
}

#[test]
fn yolo_postprocess_accepts_wide_frames() {
    let wide = RawFrame { data: Vec::new(), height: 1, width: 70000, pts: 0, added_us: 0 };
    assert!(postprocess(&Vec::new(), &wide, &vec![4, 0], InferencePrecision::FP32, 0, 0).unwrap().is_empty());
    // 100000 x 100000 frame: scale 640 / 100000; a centred box maps back exactly.
    let huge = RawFrame { data: Vec::new(), height: 100000, width: 100000, pts: 0, added_us: 0 };
    let values = [320.0f32, 320.0, 64.0, 64.0, 0.9];
    let bytes = fp32_output(5, 1, &values);
    let out = postprocess(&bytes, &huge, &vec![5, 1], InferencePrecision::FP32, fix(0.5), fix(0.5)).unwrap();
    assert_eq!(out.len(), 1);
    assert_eq!(out[0].x1, 45000 * FIX_ONE);
    assert_eq!(out[0].x2, 55000 * FIX_ONE);
    assert_eq!(out[0].y2, 55000 * FIX_ONE);
}

#[test]
fn nms_on_large_coordinates() {
    let big = 4_000_000_000i64;
    let a = ResultBBOX { x1: 0, y1: 0, x2: big * FIX_ONE, y2: big * FIX_ONE, class: 0, score: fix(0.9) };
    let b = ResultBBOX { x1: FIX_ONE, y1: FIX_ONE, x2: big * FIX_ONE, y2: big * FIX_ONE, class: 0, score: fix(0.8) };
    let c = ResultBBOX { x1: 0, y1: 0, x2: big * FIX_ONE, y2: (big / 4) * FIX_ONE, class: 0, score: fix(0.7) };
    assert!(!iou_within_threshold(&a, &b, fix(0.5)));
    assert!(iou_within_threshold(&a, &c, fix(0.5)));
    assert_eq!(bbox_nms(&vec![a, b, c], fix(0.5)), vec![a, c]);
}

#[test]
fn encoding_table_lookup_clamps() {
    let lut = create_f32_to_f16_lut();
    assert_eq!(f16_table_lookup(&lut, 0), lut[16383]);
    assert_eq!(f16_table_lookup(&lut, 4 * FIX_ONE), lut[32767]);
    assert_eq!(f16_table_lookup(&lut, 100 * FIX_ONE), lut[32767]);
    assert_eq!(f16_table_lookup(&lut, -100 * FIX_ONE), 0xC400);
    assert_eq!(f16_table_lookup(&lut, FIX_ONE), lut[20479]);
}

#[test]
fn embedding_key_with_large_pts() {
    assert_eq!(embedding_key("9", u64::MAX), format!("9-{}", u64::MAX));
    assert_eq!(embedding_key("", 1000000), "-1000000");
}
