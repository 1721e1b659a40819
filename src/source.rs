//! Per-source processing state machine: stride-based admission into the
//! bounded queue, bounded parallelism of in-flight frames, and statistics.
//!
//! The surrounding runtime drives it: it hands in decoded frames, asks for
//! the next frame to process, reports each frame's outcome and ticks the
//! statistics reporter. Every decision about a frame is taken here.
use vstd::prelude::*;
use crate::config::SourceConfig;
use crate::queue::{FixedSizeQueue, spec_push};

verus! {

/// Capacity of each source's frame queue.
pub const MAX_QUEUE_FRAMES: usize = 5;
/// Largest number of frames of one source processed at the same time.
pub const MAX_PARALLEL_FRAME_PROCESSING: usize = 5;
/// Period of the statistics reporter, in milliseconds.
pub const SOURCE_STATS_INTERVAL_MS: u64 = 1000;

/// A decoded frame waiting for inference. `added_us` is the arrival time
/// on the runtime's monotonic clock, in microseconds.
#[derive(Clone, Debug)]
pub struct RawFrame {
    pub data: Vec<u8>,
    pub height: u32,
    pub width: u32,
    pub pts: u64,
    pub added_us: u64,
}

/// Stage timings of one processed frame, in microseconds.
#[derive(Clone, Copy, Debug, Default, PartialEq, Eq, Structural)]
pub struct FrameProcessStats {
    pub queue: u64,
    pub pre_processing: u64,
    pub inference: u64,
    pub post_processing: u64,
    pub results: u64,
    pub processing: u64,
}

/// Counters of one reporting window.
#[derive(Clone, Copy, Debug, PartialEq, Eq, Structural)]
pub struct SourceStats {
    pub frames_total: u64,
    pub frames_expected: u64,
    pub frames_success: u64,
    pub frames_failed: u64,
    pub total_queue_time: u64,
    pub total_pre_proc_time: u64,
    pub total_inference_time: u64,
    pub total_post_proc_time: u64,
    pub total_results_time: u64,
    pub total_processing_time: u64,
}

impl SourceStats {
    pub open spec fn is_zero(self) -> bool {
        &&& self.frames_total == 0
        &&& self.frames_expected == 0
        &&& self.frames_success == 0
        &&& self.frames_failed == 0
        &&& self.total_queue_time == 0
        &&& self.total_pre_proc_time == 0
        &&& self.total_inference_time == 0
        &&& self.total_post_proc_time == 0
        &&& self.total_results_time == 0
        &&& self.total_processing_time == 0
    }

    /// The timing sums of `self` with those of one frame added; the frame
    /// counters are kept. Sums wrap around as the hardware counters do.
    pub open spec fn spec_add_stats(self, s: FrameProcessStats) -> SourceStats {
        SourceStats {
            total_queue_time: self.total_queue_time.wrapping_add(s.queue),
            total_pre_proc_time: self.total_pre_proc_time.wrapping_add(s.pre_processing),
            total_inference_time: self.total_inference_time.wrapping_add(s.inference),
            total_post_proc_time: self.total_post_proc_time.wrapping_add(s.post_processing),
            total_results_time: self.total_results_time.wrapping_add(s.results),
            total_processing_time: self.total_processing_time.wrapping_add(s.processing),
            ..self
        }
    }

    /// The six timing sums of `self` and `o` are equal.
    pub open spec fn same_timings(self, o: SourceStats) -> bool {
        &&& self.total_queue_time == o.total_queue_time
        &&& self.total_pre_proc_time == o.total_pre_proc_time
        &&& self.total_inference_time == o.total_inference_time
        &&& self.total_post_proc_time == o.total_post_proc_time
        &&& self.total_results_time == o.total_results_time
        &&& self.total_processing_time == o.total_processing_time
    }

    /// All counters at zero.
    pub fn new() -> (r: Self)
        ensures
            r.is_zero(),
    {
        SourceStats {
            frames_total: 0,
            frames_expected: 0,
            frames_success: 0,
            frames_failed: 0,
            total_queue_time: 0,
            total_pre_proc_time: 0,
            total_inference_time: 0,
            total_post_proc_time: 0,
            total_results_time: 0,
            total_processing_time: 0,
        }
    }

    /// Sets every counter back to zero.
    pub fn reset(&mut self)
        ensures
            final(self).is_zero(),
    {
        *self = SourceStats::new();
    }

    /// Accumulates the stage timings of one frame.
    pub fn add_stats(&mut self, stats: &FrameProcessStats)
        ensures
            *final(self) == old(self).spec_add_stats(*stats),
    {
        self.total_queue_time = self.total_queue_time.wrapping_add(stats.queue);
        self.total_pre_proc_time = self.total_pre_proc_time.wrapping_add(stats.pre_processing);
        self.total_inference_time = self.total_inference_time.wrapping_add(stats.inference);
        self.total_post_proc_time = self.total_post_proc_time.wrapping_add(stats.post_processing);
        self.total_results_time = self.total_results_time.wrapping_add(stats.results);
        self.total_processing_time = self.total_processing_time.wrapping_add(stats.processing);
    }
}

/// Per-stage averages of one reporting window, in microseconds.
#[derive(Clone, Copy, Debug, PartialEq, Eq, Structural)]
pub struct StatsReport {
    pub frames_total: u64,
    pub frames_expected: u64,
    pub frames_success: u64,
    pub frames_failed: u64,
    pub avg_queue: u64,
    pub avg_pre_proc: u64,
    pub avg_inference: u64,
    pub avg_post_proc: u64,
    pub avg_results: u64,
    pub avg_processing: u64,
}

/// `sum / max(1, n)`.
pub open spec fn spec_average(sum: u64, n: u64) -> u64 {
    if n == 0 { sum } else { (sum / n) as u64 }
}

pub fn average(sum: u64, n: u64) -> (r: u64)
    ensures
        r == spec_average(sum, n),
{
    if n == 0 { sum } else { sum / n }
}

pub open spec fn spec_report(s: SourceStats) -> StatsReport {
    StatsReport {
        frames_total: s.frames_total,
        frames_expected: s.frames_expected,
        frames_success: s.frames_success,
        frames_failed: s.frames_failed,
        avg_queue: spec_average(s.total_queue_time, s.frames_success),
        avg_pre_proc: spec_average(s.total_pre_proc_time, s.frames_success),
        avg_inference: spec_average(s.total_inference_time, s.frames_success),
        avg_post_proc: spec_average(s.total_post_proc_time, s.frames_success),
        avg_results: spec_average(s.total_results_time, s.frames_success),
        avg_processing: spec_average(s.total_processing_time, s.frames_success),
    }
}

/// Snapshot of a window's counters with per-stage averages.
pub fn summarize_stats(s: &SourceStats) -> (r: StatsReport)
    ensures
        r == spec_report(*s),
{
    StatsReport {
        frames_total: s.frames_total,
        frames_expected: s.frames_expected,
        frames_success: s.frames_success,
        frames_failed: s.frames_failed,
        avg_queue: average(s.total_queue_time, s.frames_success),
        avg_pre_proc: average(s.total_pre_proc_time, s.frames_success),
        avg_inference: average(s.total_inference_time, s.frames_success),
        avg_post_proc: average(s.total_post_proc_time, s.frames_success),
        avg_results: average(s.total_results_time, s.frames_success),
        avg_processing: average(s.total_processing_time, s.frames_success),
    }
}

/// What became of a frame handed to `process_frame`.
#[derive(Clone, Copy, Debug, PartialEq, Eq, Structural)]
pub enum FrameAdmission {
    /// Not an inference frame under the stride policy.
    Skipped,
    /// Queued.
    Queued,
    /// Queued, after the oldest queued frame (with this pts) was discarded.
    QueuedDroppedOldest(u64),
}

/// Whether the frame that brings the window's count to `count` is an
/// inference frame: every `stride`-th frame is.
pub open spec fn spec_is_inference_frame(count: u64, stride: u32) -> bool {
    stride >= 1 && count % (stride as u64) == 0
}

/// Frame-skip policy: every `stride`-th frame is sent to inference.
pub fn is_inference_frame(count: u64, stride: u32) -> (r: bool)
    requires
        stride >= 1,
    ensures
        r == spec_is_inference_frame(count, stride),
{
    count % (stride as u64) == 0
}

/// Per-source processor. Beside the window counters it keeps a lifetime
/// ledger of frames, used to state that no admitted frame goes missing.
pub struct SourceProcessor {
    source_id: String,
    source_config: SourceConfig,
    queue: FixedSizeQueue<RawFrame>,
    in_flight: usize,
    stats: SourceStats,
    /// Frames admitted by the stride policy since creation.
    admitted: Ghost<nat>,
    /// Frames whose processing succeeded (results handed to the publisher).
    published: Ghost<nat>,
    /// Frames that failed: discarded from a full queue, or failed in processing.
    failed: Ghost<nat>,
}

impl SourceProcessor {
    pub closed spec fn spec_queue(&self) -> Seq<RawFrame> {
        self.queue.view()
    }

    pub closed spec fn spec_queue_capacity(&self) -> nat {
        self.queue.spec_capacity()
    }

    pub closed spec fn spec_in_flight(&self) -> nat {
        self.in_flight as nat
    }

    pub closed spec fn spec_stats(&self) -> SourceStats {
        self.stats
    }

    pub closed spec fn spec_config(&self) -> SourceConfig {
        self.source_config
    }

    pub closed spec fn spec_source_id(&self) -> Seq<char> {
        self.source_id@
    }

    pub closed spec fn spec_admitted(&self) -> nat {
        self.admitted@
    }

    pub closed spec fn spec_published(&self) -> nat {
        self.published@
    }

    pub closed spec fn spec_failed(&self) -> nat {
        self.failed@
    }

    /// The processor's invariant: the queue and the in-flight count stay
    /// within their bounds, and every admitted frame is published, failed,
    /// queued or in flight.
    pub open spec fn wf(&self) -> bool {
        &&& self.spec_config().inf_frame >= 1
        &&& self.spec_queue_capacity() == MAX_QUEUE_FRAMES
        &&& self.spec_queue().len() <= MAX_QUEUE_FRAMES
        &&& self.spec_in_flight() <= MAX_PARALLEL_FRAME_PROCESSING
        &&& self.spec_admitted() == self.spec_published() + self.spec_failed()
            + self.spec_queue().len() + self.spec_in_flight()
    }

    pub open spec fn ready(&self) -> bool {
        self.wf() && self.inner_ready()
    }

    pub closed spec fn inner_ready(&self) -> bool {
        self.queue.wf()
    }

    /// A processor with an empty queue, nothing in flight and zeroed counters.
    pub fn new(source_id: String, source_config: SourceConfig) -> (r: Self)
        requires
            source_config.inf_frame >= 1,
        ensures
            r.ready(),
            r.spec_source_id() == source_id@,
            r.spec_config() == source_config,
            r.spec_queue() == Seq::<RawFrame>::empty(),
            r.spec_in_flight() == 0,
            r.spec_stats().is_zero(),
            r.spec_admitted() == 0,
    {
        SourceProcessor {
            source_id,
            source_config,
            queue: FixedSizeQueue::new(MAX_QUEUE_FRAMES),
            in_flight: 0,
            stats: SourceStats::new(),
            admitted: Ghost(0),
            published: Ghost(0),
            failed: Ghost(0),
        }
    }

    pub fn source_id(&self) -> (r: &String)
        ensures
            r@ == self.spec_source_id(),
    {
        &self.source_id
    }

    pub fn source_config(&self) -> (r: SourceConfig)
        ensures
            r == self.spec_config(),
    {
        self.source_config
    }

    pub fn stats(&self) -> (r: SourceStats)
        ensures
            r == self.spec_stats(),
    {
        self.stats
    }

    pub fn in_flight(&self) -> (r: usize)
        ensures
            r == self.spec_in_flight(),
    {
        self.in_flight
    }

    pub fn queue_len(&self) -> (r: usize)
        requires
            self.ready(),
        ensures
            r == self.spec_queue().len(),
    {
        self.queue.len()
    }

    /// Ingests one decoded frame. The window's frame count goes up by one;
    /// when the new count is a multiple of the stride the frame is queued,
    /// and if the queue was full its oldest frame is discarded and counted
    /// as failed.
    pub fn process_frame(&mut self, data: Vec<u8>, height: u32, width: u32, pts: u64, now_us: u64) -> (r: FrameAdmission)
        requires
            old(self).ready(),
        ensures
            final(self).ready(),
            final(self).spec_config() == old(self).spec_config(),
            final(self).spec_source_id() == old(self).spec_source_id(),
            final(self).spec_in_flight() == old(self).spec_in_flight(),
            final(self).spec_published() == old(self).spec_published(),
            final(self).spec_stats().frames_total == old(self).spec_stats().frames_total.wrapping_add(1),
            final(self).spec_stats().frames_success == old(self).spec_stats().frames_success,
            final(self).spec_stats().same_timings(old(self).spec_stats()),
            ({
                let count = old(self).spec_stats().frames_total.wrapping_add(1);
                let frame = RawFrame { data, height, width, pts, added_us: now_us };
                let q = old(self).spec_queue();
                if !spec_is_inference_frame(count, old(self).spec_config().inf_frame) {
                    &&& r == FrameAdmission::Skipped
                    &&& final(self).spec_queue() == q
                    &&& final(self).spec_admitted() == old(self).spec_admitted()
                    &&& final(self).spec_failed() == old(self).spec_failed()
                    &&& final(self).spec_stats().frames_failed == old(self).spec_stats().frames_failed
                    &&& final(self).spec_stats().frames_expected == old(self).spec_stats().frames_expected
                } else {
                    &&& final(self).spec_queue() == spec_push(q, MAX_QUEUE_FRAMES as nat, frame)
                    &&& final(self).spec_admitted() == old(self).spec_admitted() + 1
                    &&& final(self).spec_stats().frames_expected
                        == old(self).spec_stats().frames_expected.wrapping_add(1)
                    &&& if q.len() >= MAX_QUEUE_FRAMES {
                        &&& r == FrameAdmission::QueuedDroppedOldest(q[0].pts)
                        &&& final(self).spec_failed() == old(self).spec_failed() + 1
                        &&& final(self).spec_stats().frames_failed
                            == old(self).spec_stats().frames_failed.wrapping_add(1)
                    } else {
                        &&& r == FrameAdmission::Queued
                        &&& final(self).spec_failed() == old(self).spec_failed()
                        &&& final(self).spec_stats().frames_failed == old(self).spec_stats().frames_failed
                    }
                }
            }),
    {
        self.stats.frames_total = self.stats.frames_total.wrapping_add(1);
        if !is_inference_frame(self.stats.frames_total, self.source_config.inf_frame) {
            return FrameAdmission::Skipped;
        }
        let frame = RawFrame { data, height, width, pts, added_us: now_us };
        self.stats.frames_expected = self.stats.frames_expected.wrapping_add(1);
        self.admitted = Ghost(self.admitted@ + 1);
        let dropped = self.queue.send_sync(frame);
        match dropped {
            Some(old_frame) => {
                self.stats.frames_failed = self.stats.frames_failed.wrapping_add(1);
                self.failed = Ghost(self.failed@ + 1);
                FrameAdmission::QueuedDroppedOldest(old_frame.pts)
            },
            None => FrameAdmission::Queued,
        }
    }

    /// Starts processing the oldest queued frame when a parallelism permit
    /// is free: the frame leaves the queue and counts as in flight.
    /// Returns `None` when no permit is free or the queue is empty.
    pub fn next_frame(&mut self) -> (r: Option<RawFrame>)
        requires
            old(self).ready(),
        ensures
            final(self).ready(),
            final(self).spec_config() == old(self).spec_config(),
            final(self).spec_source_id() == old(self).spec_source_id(),
            final(self).spec_stats() == old(self).spec_stats(),
            final(self).spec_admitted() == old(self).spec_admitted(),
            final(self).spec_published() == old(self).spec_published(),
            final(self).spec_failed() == old(self).spec_failed(),
            ({
                let q = old(self).spec_queue();
                if old(self).spec_in_flight() < MAX_PARALLEL_FRAME_PROCESSING && q.len() > 0 {
                    &&& r == Some(q[0])
                    &&& final(self).spec_queue() == q.drop_first()
                    &&& final(self).spec_in_flight() == old(self).spec_in_flight() + 1
                } else {
                    &&& r.is_none()
                    &&& final(self).spec_queue() == q
                    &&& final(self).spec_in_flight() == old(self).spec_in_flight()
                }
            }),
    {
        if self.in_flight >= MAX_PARALLEL_FRAME_PROCESSING {
            return None;
        }
        let r = self.queue.recv();
        if r.is_some() {
            self.in_flight = self.in_flight + 1;
        }
        r
    }

    /// Records the outcome of an in-flight frame: its stage timings on
    /// success, `None` on failure. Its permit is released.
    pub fn finish_frame(&mut self, outcome: Option<FrameProcessStats>)
        requires
            old(self).ready(),
            old(self).spec_in_flight() > 0,
        ensures
            final(self).ready(),
            final(self).spec_config() == old(self).spec_config(),
            final(self).spec_source_id() == old(self).spec_source_id(),
            final(self).spec_queue() == old(self).spec_queue(),
            final(self).spec_in_flight() == old(self).spec_in_flight() - 1,
            final(self).spec_admitted() == old(self).spec_admitted(),
            final(self).spec_stats().frames_total == old(self).spec_stats().frames_total,
            final(self).spec_stats().frames_expected == old(self).spec_stats().frames_expected,
            match outcome {
                Some(s) => {
                    &&& final(self).spec_published() == old(self).spec_published() + 1
                    &&& final(self).spec_failed() == old(self).spec_failed()
                    &&& final(self).spec_stats() == (SourceStats {
                        frames_success: old(self).spec_stats().frames_success.wrapping_add(1),
                        ..old(self).spec_stats()
                    }).spec_add_stats(s)
                },
                None => {
                    &&& final(self).spec_published() == old(self).spec_published()
                    &&& final(self).spec_failed() == old(self).spec_failed() + 1
                    &&& final(self).spec_stats() == (SourceStats {
                        frames_failed: old(self).spec_stats().frames_failed.wrapping_add(1),
                        ..old(self).spec_stats()
                    })
                },
            },
    {
        self.in_flight = self.in_flight - 1;
        match outcome {
            Some(s) => {
                self.stats.frames_success = self.stats.frames_success.wrapping_add(1);
                self.stats.add_stats(&s);
                self.published = Ghost(self.published@ + 1);
            },
            None => {
                self.stats.frames_failed = self.stats.frames_failed.wrapping_add(1);
                self.failed = Ghost(self.failed@ + 1);
            },
        }
    }

    /// Closes a reporting window: returns its summary and zeroes the counters.
    pub fn report_stats(&mut self) -> (r: StatsReport)
        requires
            old(self).ready(),
        ensures
            final(self).ready(),
            r == spec_report(old(self).spec_stats()),
            final(self).spec_stats().is_zero(),
            final(self).spec_config() == old(self).spec_config(),
            final(self).spec_source_id() == old(self).spec_source_id(),
            final(self).spec_queue() == old(self).spec_queue(),
            final(self).spec_in_flight() == old(self).spec_in_flight(),
            final(self).spec_admitted() == old(self).spec_admitted(),
            final(self).spec_published() == old(self).spec_published(),
            final(self).spec_failed() == old(self).spec_failed(),
    {
        let r = summarize_stats(&self.stats);
        self.stats.reset();
        r
    }
}

/// Every frame the stride policy admitted is published, failed (dropped
/// from a full queue or failed in processing), still queued, or in flight;
/// and at every moment the queue holds at most `MAX_QUEUE_FRAMES` frames
/// and at most `MAX_PARALLEL_FRAME_PROCESSING` frames are in flight.
pub proof fn lemma_frame_accounting(p: &SourceProcessor)
    requires
        p.ready(),
    ensures
        p.spec_admitted() == p.spec_published() + p.spec_failed() + p.spec_queue().len() + p.spec_in_flight(),
        p.spec_queue().len() <= MAX_QUEUE_FRAMES,
        p.spec_in_flight() <= MAX_PARALLEL_FRAME_PROCESSING,
{
}

} // verus!
