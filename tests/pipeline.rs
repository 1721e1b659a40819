use frame_infer::batching::{assemble_outputs, batch_input_shape, chunk_ranges, concat_chunk, output_size_per_sample, split_batch_output};
use frame_infer::config::{
    instances_per_model, resolve_source_config, InferenceModelType, InferencePrecision, SourceConfig, SourceConfigOptional,
    SourcesConfig, FIX_ONE,
};
use frame_infer::letterbox::CodecError;
use frame_infer::nms::ResultBBOX;
use frame_infer::queue::FixedSizeQueue;
use frame_infer::results::detection_records;
use frame_infer::source::{
    average, FrameAdmission, FrameProcessStats, RawFrame, SourceProcessor, SourceStats, MAX_PARALLEL_FRAME_PROCESSING,
    MAX_QUEUE_FRAMES,
};
use frame_infer::video::{
    are_callbacks_set, frame_byte_len, set_log_level, start_stream, start_streams, status_description, LogLevel, SourceStatus,
    StreamManager,
};

fn config(stride: u32) -> SourceConfig {
    SourceConfig { inf_frame: stride, conf_threshold: FIX_ONE / 2, nms_iou_threshold: FIX_ONE / 2 }
}

fn push(p: &mut SourceProcessor, pts: u64) -> FrameAdmission {
    p.process_frame(vec![1, 2, 3], 1, 1, pts, pts * 10)
}

#[test]
fn queue_overflow_drops_oldest() {
    let mut q: FixedSizeQueue<u64> = FixedSizeQueue::new(2);
    let mut dropped = Vec::new();
    for pts in 1..=4u64 {
        if let Some(d) = q.send_sync(pts) {
            dropped.push(d);
        }
    }
    assert_eq!(dropped, vec![1, 2]);
    assert_eq!(q.len(), 2);
    assert_eq!(q.recv(), Some(3));
    assert_eq!(q.recv(), Some(4));
    assert_eq!(q.recv(), None);
}

#[test]
fn processor_overflow_counts_failures_and_keeps_newest() {
    let mut p = SourceProcessor::new("1".to_string(), config(1));
    let total = (MAX_QUEUE_FRAMES as u64) + 2;
    let mut outcomes = Vec::new();
    for pts in 1..=total {
        outcomes.push(push(&mut p, pts));
    }
    assert_eq!(outcomes[0], FrameAdmission::Queued);
    assert_eq!(outcomes[MAX_QUEUE_FRAMES], FrameAdmission::QueuedDroppedOldest(1));
    assert_eq!(outcomes[MAX_QUEUE_FRAMES + 1], FrameAdmission::QueuedDroppedOldest(2));
    assert_eq!(p.stats().frames_failed, 2);
    assert_eq!(p.queue_len(), MAX_QUEUE_FRAMES);
    let mut consumed = Vec::new();
    while let Some(f) = p.next_frame() {
        consumed.push(f.pts);
        p.finish_frame(Some(FrameProcessStats::default()));
    }
    assert_eq!(consumed, (3..=total).collect::<Vec<u64>>());
}

#[test]
fn stride_policy_admits_every_third_frame() {
    let mut p = SourceProcessor::new("1".to_string(), config(3));
    let mut admitted = Vec::new();
    for pts in 10..=15u64 {
        if push(&mut p, pts) != FrameAdmission::Skipped {
            admitted.push(pts);
        }
    }
    assert_eq!(admitted, vec![12, 15]);
    assert_eq!(p.stats().frames_failed, 0);
    assert_eq!(p.stats().frames_total, 6);
    assert_eq!(p.stats().frames_expected, 2);
    assert_eq!(p.next_frame().map(|f| f.pts), Some(12));
    assert_eq!(p.next_frame().map(|f| f.pts), Some(15));
    assert!(p.next_frame().is_none());
}

#[test]
fn in_flight_frames_are_bounded() {
    let mut p = SourceProcessor::new("1".to_string(), config(1));
    for pts in 0..(MAX_QUEUE_FRAMES as u64) {
        push(&mut p, pts);
    }
    for _ in 0..MAX_PARALLEL_FRAME_PROCESSING {
        assert!(p.next_frame().is_some());
    }
    push(&mut p, 100);
    assert_eq!(p.in_flight(), MAX_PARALLEL_FRAME_PROCESSING);
    assert!(p.next_frame().is_none());
    p.finish_frame(None);
    assert_eq!(p.stats().frames_failed, 1);
    assert_eq!(p.next_frame().map(|f| f.pts), Some(100));
}

#[test]
fn processor_stats_accumulate_and_reset() {
    let mut p = SourceProcessor::new("7".to_string(), config(1));
    push(&mut p, 1);
    push(&mut p, 2);
    let f1 = p.next_frame().unwrap();
    assert_eq!(f1.added_us, 10);
    p.finish_frame(Some(FrameProcessStats { queue: 10, pre_processing: 20, inference: 30, post_processing: 40, results: 50, processing: 150 }));
    p.next_frame().unwrap();
    p.finish_frame(Some(FrameProcessStats { queue: 30, pre_processing: 20, inference: 10, post_processing: 0, results: 0, processing: 61 }));
    let report = p.report_stats();
    assert_eq!(report.frames_success, 2);
    assert_eq!(report.frames_total, 2);
    assert_eq!(report.avg_queue, 20);
    assert_eq!(report.avg_pre_proc, 20);
    assert_eq!(report.avg_inference, 20);
    assert_eq!(report.avg_post_proc, 20);
    assert_eq!(report.avg_results, 25);
    assert_eq!(report.avg_processing, 105);
    assert_eq!(p.stats(), SourceStats::new());
    assert_eq!(p.source_id(), "7");
}

#[test]
fn source_stats_add_and_reset() {
    let mut s = SourceStats::new();
    s.add_stats(&FrameProcessStats { queue: 1, pre_processing: 2, inference: 3, post_processing: 4, results: 5, processing: 6 });
    s.add_stats(&FrameProcessStats { queue: 1, pre_processing: 1, inference: 1, post_processing: 1, results: 1, processing: u64::MAX });
    assert_eq!(s.total_queue_time, 2);
    assert_eq!(s.total_results_time, 6);
    assert_eq!(s.total_processing_time, 5);
    s.frames_total = 9;
    s.reset();
    assert_eq!(s, SourceStats::new());
    assert_eq!(average(10, 0), 10);
    assert_eq!(average(10, 4), 2);
}

#[test]
fn output_size_is_shape_product_times_width() {
    assert_eq!(output_size_per_sample(&vec![84, 8400], InferencePrecision::FP16), Some(84 * 8400 * 2));
    assert_eq!(output_size_per_sample(&vec![768], InferencePrecision::FP32), Some(768 * 4));
    assert_eq!(output_size_per_sample(&vec![], InferencePrecision::FP32), Some(4));
    assert_eq!(output_size_per_sample(&vec![3, 0, 5], InferencePrecision::FP32), Some(0));
    assert_eq!(output_size_per_sample(&vec![3, -1], InferencePrecision::FP32), None);
    assert_eq!(output_size_per_sample(&vec![i64::MAX, 4], InferencePrecision::FP32), None);
}

#[test]
fn batch_order_is_preserved() {
    let inputs: Vec<Vec<u8>> = (0..20u8).map(|i| vec![i, i.wrapping_mul(3), 200 - i]).collect();
    let ranges = chunk_ranges(inputs.len(), 8);
    assert_eq!(ranges, vec![(0, 8), (8, 16), (16, 20)]);
    // The server answers each sample with its bytes reversed; chunks come back
    // in reverse completion order and are placed by chunk index.
    let mut per_chunk: Vec<Option<Vec<Vec<u8>>>> = vec![None; ranges.len()];
    for (c, &(start, end)) in ranges.iter().enumerate().rev() {
        let body = concat_chunk(&inputs, start, end);
        assert_eq!(body.len(), (end - start) * 3);
        let mut response = Vec::new();
        for sample in body.chunks(3) {
            response.extend(sample.iter().rev());
        }
        per_chunk[c] = Some(split_batch_output(&response, end - start, 3).unwrap());
    }
    let outputs = assemble_outputs(per_chunk.into_iter().map(|c| c.unwrap()).collect());
    assert_eq!(outputs.len(), 20);
    for (i, out) in outputs.iter().enumerate() {
        let mut expected = inputs[i].clone();
        expected.reverse();
        assert_eq!(out, &expected);
    }
}

#[test]
fn batch_response_length_must_match() {
    let response = vec![1u8, 2, 3, 4, 5, 6];
    let split = split_batch_output(&response, 3, 2).unwrap();
    assert_eq!(split, vec![vec![1, 2], vec![3, 4], vec![5, 6]]);
    assert_eq!(split_batch_output(&response, 4, 2), Err(CodecError::InvalidShape));
    assert_eq!(split_batch_output(&response, 2, 2), Err(CodecError::InvalidShape));
    assert_eq!(split_batch_output(&Vec::new(), 0, 5).unwrap().len(), 0);
}

#[test]
fn chunk_ranges_edge_cases() {
    assert!(chunk_ranges(0, 8).is_empty());
    assert_eq!(chunk_ranges(8, 8), vec![(0, 8)]);
    assert_eq!(chunk_ranges(3, 1), vec![(0, 1), (1, 2), (2, 3)]);
    assert_eq!(batch_input_shape(4, &vec![3, 640, 640]), vec![4, 3, 640, 640]);
}

#[test]
fn source_overrides_apply_only_when_valid() {
    let default = config(1);
    let custom = SourceConfigOptional { inf_frame: Some(31), conf_threshold: Some(FIX_ONE / 4), nms_iou_threshold: Some(-1) };
    let r = resolve_source_config(default, Some(custom));
    assert_eq!(r.inf_frame, 1);
    assert_eq!(r.conf_threshold, FIX_ONE / 4);
    assert_eq!(r.nms_iou_threshold, FIX_ONE / 2);
    let r2 = resolve_source_config(default, Some(SourceConfigOptional { inf_frame: Some(30), conf_threshold: None, nms_iou_threshold: Some(FIX_ONE) }));
    assert_eq!(r2, SourceConfig { inf_frame: 30, conf_threshold: FIX_ONE / 2, nms_iou_threshold: FIX_ONE });
    assert_eq!(resolve_source_config(default, None), default);
}

#[test]
fn sources_resolve_in_id_order() {
    let sources = SourcesConfig {
        ids: vec!["1".to_string(), "2".to_string()],
        default: config(2),
        custom: vec![("2".to_string(), SourceConfigOptional { inf_frame: Some(5), conf_threshold: None, nms_iou_threshold: None })],
    };
    let r = sources.resolve();
    assert_eq!(r.len(), 2);
    assert_eq!(r[0], ("1".to_string(), config(2)));
    assert_eq!(r[1], ("2".to_string(), config(5)));
}

#[test]
fn names_and_tags() {
    assert_eq!(InferencePrecision::FP16.to_string(), "FP16");
    assert_eq!(InferencePrecision::FP32.to_string(), "FP32");
    assert_eq!(InferencePrecision::FP16.model_data_type(), "TYPE_FP16");
    assert_eq!(InferencePrecision::FP32.element_bytes(), 4);
    assert_eq!(InferenceModelType::YOLO.to_string(), "YOLO");
    assert_eq!(InferenceModelType::DINO.to_string(), "DINO");
    assert_eq!(instances_per_model(3), 3);
    assert_eq!(instances_per_model(0), 0);
}

#[test]
fn class_names_and_corner_indices() {
    let b = ResultBBOX { x1: 3 * FIX_ONE + 5, y1: 2 * FIX_ONE, x2: 10 * FIX_ONE, y2: 4 * FIX_ONE + FIX_ONE / 2, class: 2, score: FIX_ONE / 2 };
    let frame = RawFrame { data: Vec::new(), height: 20, width: 100, pts: 99, added_us: 0 };
    assert_eq!(b.class_name(), "car");
    assert_eq!(b.corners_coordinates(&frame), (203, 410));
    let unknown = ResultBBOX { class: 17, ..b };
    assert_eq!(unknown.class_name(), "17");
    let names: Vec<String> = (0..6).map(|c| ResultBBOX { class: c, ..b }.class_name()).collect();
    assert_eq!(names, vec!["person", "bicycle", "car", "motorcycle", "airplane", "bus"]);
    let records = detection_records(&frame, &vec![b, unknown]);
    assert_eq!(records.len(), 2);
    assert_eq!(records[0].pts, 99);
    assert_eq!(records[0].top_left_corner, 203);
    assert_eq!(records[1].class_name, "17");
    assert_eq!(records[1].score, FIX_ONE / 2);
}

#[test]
fn decoder_codes() {
    assert_eq!(SourceStatus::from_code(0), Some(SourceStatus::Active));
    assert_eq!(SourceStatus::from_code(4), Some(SourceStatus::DecodeError));
    assert_eq!(SourceStatus::from_code(5), None);
    assert_eq!(SourceStatus::NotFound.code(), 2);
    assert_eq!(status_description(3), "ERROR - Connection error");
    assert_eq!(status_description(-1), "UNKNOWN status");
    assert_eq!(LogLevel::from_code(1), Some(LogLevel::Debug));
    assert_eq!(LogLevel::from_code(2), None);
    assert_eq!(frame_byte_len(4, 2), Some(24));
    assert_eq!(frame_byte_len(-1, 2), None);
}

#[test]
fn stream_manager_registry() {
    let mut m = StreamManager::new();
    assert!(!are_callbacks_set(&m));
    m.set_callbacks();
    assert!(are_callbacks_set(&m));
    assert!(start_stream(&mut m, 4));
    assert!(!start_stream(&mut m, 4));
    start_streams(&mut m, &vec![1, 4, 2], LogLevel::Debug);
    assert_eq!(m.log_level(), LogLevel::Debug);
    assert!(m.is_monitored(1) && m.is_monitored(2) && m.is_monitored(4));
    assert!(!m.is_monitored(3));
    set_log_level(&mut m, LogLevel::Regular);
    assert_eq!(m.log_level(), LogLevel::Regular);
}
