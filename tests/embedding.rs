use frame_infer::config::{InferencePrecision, FIX_ONE};
use frame_infer::crop::{calculate_resize_shortest_edge, preprocess_bboxes, resize_center_crop_and_normalize, CROP_SIZE, SHORTEST_EDGE};
use frame_infer::letterbox::CodecError;
use frame_infer::nms::ResultBBOX;
use frame_infer::resize::ChannelTables;
use frame_infer::results::postprocess_embeddings;
use frame_infer::source::RawFrame;

fn tables() -> ChannelTables {
    ChannelTables {
        r: (0..256u32).collect(),
        g: (0..256u32).map(|v| v + 1000).collect(),
        b: (0..256u32).map(|v| v + 2000).collect(),
        pad_r: 7,
        pad_g: 8,
        pad_b: 9,
    }
}

fn element(out: &[u8], e: usize) -> u32 {
    u32::from_le_bytes([out[4 * e], out[4 * e + 1], out[4 * e + 2], out[4 * e + 3]])
}

fn bx(x1: i64, y1: i64, x2: i64, y2: i64) -> ResultBBOX {
    ResultBBOX { x1: x1 * FIX_ONE, y1: y1 * FIX_ONE, x2: x2 * FIX_ONE, y2: y2 * FIX_ONE, class: 0, score: FIX_ONE }
}

#[test]
fn shortest_edge_geometry() {
    let p = calculate_resize_shortest_edge(1080, 1920, SHORTEST_EDGE, CROP_SIZE);
    assert_eq!((p.new_width, p.new_height), (455, 256));
    assert_eq!((p.crop_x, p.crop_y), (115, 16));
    assert_eq!((p.crop_width, p.crop_height), (224, 224));
    let small = calculate_resize_shortest_edge(100, 50, 100, 224);
    assert_eq!((small.new_width, small.new_height), (100, 200));
    assert_eq!((small.crop_width, small.crop_height), (100, 200));
    assert_eq!((small.crop_x, small.crop_y), (0, 0));
}

#[test]
fn center_crop_of_single_pixel_fills_every_position() {
    let frame = RawFrame { data: vec![5, 6, 7], height: 1, width: 1, pts: 0, added_us: 0 };
    let out = resize_center_crop_and_normalize(&frame, InferencePrecision::FP32, &tables()).unwrap();
    let plane = 224 * 224;
    assert_eq!(out.len(), 3 * plane * 4);
    assert_eq!(element(&out, 0), 5);
    assert_eq!(element(&out, plane - 1), 5);
    assert_eq!(element(&out, plane + 100), 1006);
    assert_eq!(element(&out, 2 * plane + 5000), 2007);
}

#[test]
fn center_crop_samples_nearest_pixel() {
    // 2 x 2 frame: resized to 256 x 256, each source pixel covers a quadrant.
    let data = vec![10, 0, 0, 20, 0, 0, 30, 0, 0, 40, 0, 0];
    let frame = RawFrame { data, height: 2, width: 2, pts: 0, added_us: 0 };
    let out = resize_center_crop_and_normalize(&frame, InferencePrecision::FP32, &tables()).unwrap();
    assert_eq!(element(&out, 0), 10);
    assert_eq!(element(&out, 223), 20);
    assert_eq!(element(&out, 223 * 224), 30);
    assert_eq!(element(&out, 224 * 224 - 1), 40);
}

#[test]
fn center_crop_rejects_bad_frames() {
    let frame = RawFrame { data: vec![1, 2], height: 1, width: 1, pts: 0, added_us: 0 };
    assert_eq!(resize_center_crop_and_normalize(&frame, InferencePrecision::FP16, &tables()), Err(CodecError::InvalidShape));
    let empty = RawFrame { data: Vec::new(), height: 0, width: 3, pts: 0, added_us: 0 };
    assert_eq!(resize_center_crop_and_normalize(&empty, InferencePrecision::FP16, &tables()), Err(CodecError::InvalidShape));
}

#[test]
fn box_crops_are_letterboxed() {
    let mut data = Vec::new();
    for i in 0..16u8 {
        data.extend_from_slice(&[i, i, i]);
    }
    let frame = RawFrame { data, height: 4, width: 4, pts: 0, added_us: 0 };
    let out = preprocess_bboxes(&frame, &vec![bx(1, 1, 3, 3), bx(-5, 0, 99, 1)], InferencePrecision::FP32, &tables()).unwrap();
    assert_eq!(out.len(), 2);
    assert_eq!(out[0].len(), 3 * 224 * 224 * 4);
    // The 2 x 2 crop starts at pixel (1, 1), whose value is 5.
    assert_eq!(element(&out[0], 0), 5);
    assert_eq!(element(&out[0], 224 * 224 - 1), 10);
    // The second box is clamped to the first row: 4 x 1, letterboxed with padding.
    assert_eq!(element(&out[1], 0), 7);
    assert_eq!(element(&out[1], 112 * 224), 0);
}

#[test]
fn degenerate_box_fails() {
    let frame = RawFrame { data: vec![0; 48], height: 4, width: 4, pts: 0, added_us: 0 };
    assert_eq!(preprocess_bboxes(&frame, &vec![bx(2, 2, 2, 3)], InferencePrecision::FP16, &tables()), Err(CodecError::InvalidShape));
    assert_eq!(preprocess_bboxes(&frame, &vec![bx(5, 0, 9, 3)], InferencePrecision::FP16, &tables()), Err(CodecError::InvalidShape));
    assert!(preprocess_bboxes(&frame, &Vec::new(), InferencePrecision::FP16, &tables()).unwrap().is_empty());
}

#[test]
fn whole_frame_embedding_preprocess_letterboxes_to_224() {
    let frame = RawFrame { data: vec![9, 9, 9, 1, 1, 1], height: 1, width: 2, pts: 0, added_us: 0 };
    let out = frame_infer::crop::preprocess(&frame, InferencePrecision::FP32, &tables()).unwrap();
    assert_eq!(out.len(), 3 * 224 * 224 * 4);
    // 1 x 2 frame: active rows 56..168; row 0 is fill.
    assert_eq!(element(&out, 0), 7);
    assert_eq!(element(&out, 100 * 224), 9);
    assert_eq!(element(&out, 100 * 224 + 223), 1);
}

#[test]
fn batched_embeddings_decode_in_order() {
    let a = 1.0f32.to_le_bytes().to_vec();
    let b = [(-3.5f32).to_le_bytes(), 0.25f32.to_le_bytes()].concat();
    let out = postprocess_embeddings(&vec![a, b], InferencePrecision::FP32).unwrap();
    assert_eq!(out.len(), 2);
    assert_eq!(out[0].data, vec![1.0f32.to_bits()]);
    assert_eq!(out[1].data, vec![(-3.5f32).to_bits(), 0.25f32.to_bits()]);
    assert!(postprocess_embeddings(&vec![vec![0u8; 4], vec![0u8; 3]], InferencePrecision::FP32).is_err());
}
