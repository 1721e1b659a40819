//! Configuration values of the pipeline: model descriptors, per-source
//! settings and the rule that merges per-source overrides into defaults.
use vstd::prelude::*;
use vstd::string::*;

verus! {

/// Fixed-point scale used for scores, thresholds and coordinates: a value
/// `v` stands for the real number `v / FIX_ONE` (24 fractional bits).
pub const FIX_ONE: i64 = 16777216;

/// Smallest and largest accepted per-source inference stride.
pub const MIN_INFERENCE_STRIDE: u32 = 1;
pub const MAX_INFERENCE_STRIDE: u32 = 30;

/// Deployment environment of the process.
#[derive(Clone, Copy, Debug, PartialEq, Eq, Structural)]
pub enum Environment {
    Production,
    NonProduction,
}

/// Element width of tensor payloads.
#[derive(Clone, Copy, Debug, PartialEq, Eq, Structural)]
pub enum InferencePrecision {
    FP32,
    FP16,
}

impl InferencePrecision {
    pub open spec fn spec_name(self) -> Seq<char> {
        match self {
            InferencePrecision::FP32 => seq!['F', 'P', '3', '2'],
            InferencePrecision::FP16 => seq!['F', 'P', '1', '6'],
        }
    }

    pub open spec fn spec_bytes(self) -> nat {
        match self {
            InferencePrecision::FP32 => 4,
            InferencePrecision::FP16 => 2,
        }
    }

    /// Data type tag sent to the inference server ("FP32" or "FP16").
    pub fn to_string(&self) -> (r: String)
        ensures
            r@ == self.spec_name(),
    {
        let r = match self {
            InferencePrecision::FP32 => String::from_str("FP32"),
            InferencePrecision::FP16 => String::from_str("FP16"),
        };
        proof {
            reveal_strlit("FP32");
            reveal_strlit("FP16");
            assert(seq!['F', 'P', '3', '2'] =~= "FP32"@);
            assert(seq!['F', 'P', '1', '6'] =~= "FP16"@);
        }
        r
    }

    /// Size in bytes of one tensor element.
    pub fn element_bytes(&self) -> (r: usize)
        ensures
            r == self.spec_bytes(),
    {
        match self {
            InferencePrecision::FP32 => 4,
            InferencePrecision::FP16 => 2,
        }
    }
}

/// Family of model served for a model kind.
#[derive(Clone, Copy, Debug, PartialEq, Eq, Hash, Structural)]
pub enum InferenceModelType {
    YOLO,
    DINO,
}

impl InferenceModelType {
    pub open spec fn spec_name(self) -> Seq<char> {
        match self {
            InferenceModelType::YOLO => seq!['Y', 'O', 'L', 'O'],
            InferenceModelType::DINO => seq!['D', 'I', 'N', 'O'],
        }
    }

    /// Display name of the model family.
    pub fn to_string(&self) -> (r: &'static str)
        ensures
            r@ == self.spec_name(),
    {
        let r = match self {
            InferenceModelType::YOLO => "YOLO",
            InferenceModelType::DINO => "DINO",
        };
        proof {
            reveal_strlit("YOLO");
            reveal_strlit("DINO");
            assert(seq!['Y', 'O', 'L', 'O'] =~= "YOLO"@);
            assert(seq!['D', 'I', 'N', 'O'] =~= "DINO"@);
        }
        r
    }
}

/// Task a model performs.
#[derive(Clone, Copy, Debug, PartialEq, Eq, Structural)]
pub enum InferenceTask {
    ObjectDetection,
    Embedding,
}

/// Descriptor of one served model.
#[derive(Clone, Debug)]
pub struct ModelConfig {
    pub name: String,
    pub precision: InferencePrecision,
    pub input_name: String,
    pub input_shape: Vec<i64>,
    pub output_name: String,
    pub output_shape: Vec<i64>,
    pub batch_max_size: u32,
    pub batch_max_queue_delay: u32,
    pub batch_preferred_sizes: Vec<u32>,
}

/// Endpoint of the tensor-serving gateway.
#[derive(Clone, Debug)]
pub struct TritonConfig {
    pub url: String,
    pub models_dir: String,
}

/// Event bus connection settings.
#[derive(Clone, Debug)]
pub struct KafkaConfig {
    pub brokers: String,
    pub topic_bboxes: String,
    pub topic_embedding: String,
}

/// Models by kind, with the task the pipeline runs.
#[derive(Clone, Debug)]
pub struct InferenceConfig {
    pub models: Vec<(InferenceModelType, ModelConfig)>,
    pub task: InferenceTask,
}

/// Per-source settings. Thresholds are fixed-point values (see `FIX_ONE`).
#[derive(Clone, Copy, Debug, PartialEq, Eq, Structural)]
pub struct SourceConfig {
    pub inf_frame: u32,
    pub conf_threshold: i64,
    pub nms_iou_threshold: i64,
}

/// Per-source overrides; a missing entry keeps the default.
#[derive(Clone, Copy, Debug, PartialEq, Eq, Structural)]
pub struct SourceConfigOptional {
    pub inf_frame: Option<u32>,
    pub conf_threshold: Option<i64>,
    pub nms_iou_threshold: Option<i64>,
}

pub open spec fn stride_in_range(v: u32) -> bool {
    MIN_INFERENCE_STRIDE <= v <= MAX_INFERENCE_STRIDE
}

pub open spec fn unit_interval(v: i64) -> bool {
    0 <= v <= FIX_ONE
}

/// An override is taken only when it is present and valid.
pub open spec fn spec_override_stride(custom: Option<u32>, default: u32) -> u32 {
    match custom {
        Some(v) => if stride_in_range(v) { v } else { default },
        None => default,
    }
}

pub open spec fn spec_override_unit(custom: Option<i64>, default: i64) -> i64 {
    match custom {
        Some(v) => if unit_interval(v) { v } else { default },
        None => default,
    }
}

pub open spec fn spec_resolve(default: SourceConfig, custom: Option<SourceConfigOptional>) -> SourceConfig {
    match custom {
        Some(c) => SourceConfig {
            inf_frame: spec_override_stride(c.inf_frame, default.inf_frame),
            conf_threshold: spec_override_unit(c.conf_threshold, default.conf_threshold),
            nms_iou_threshold: spec_override_unit(c.nms_iou_threshold, default.nms_iou_threshold),
        },
        None => default,
    }
}

impl SourceConfig {
    /// Settings a processor can run with: a stride within bounds and
    /// thresholds within the unit interval.
    pub open spec fn wf(self) -> bool {
        stride_in_range(self.inf_frame) && unit_interval(self.conf_threshold)
            && unit_interval(self.nms_iou_threshold)
    }
}

fn override_stride(custom: Option<u32>, default: u32) -> (r: u32)
    ensures
        r == spec_override_stride(custom, default),
{
    match custom {
        Some(v) => if MIN_INFERENCE_STRIDE <= v && v <= MAX_INFERENCE_STRIDE { v } else { default },
        None => default,
    }
}

fn override_unit(custom: Option<i64>, default: i64) -> (r: i64)
    ensures
        r == spec_override_unit(custom, default),
{
    match custom {
        Some(v) => if 0 <= v && v <= FIX_ONE { v } else { default },
        None => default,
    }
}

/// Settings of one source: the defaults, with each valid override applied.
/// A stride override is valid within 1..=30, a threshold within [0, 1].
pub fn resolve_source_config(default: SourceConfig, custom: Option<SourceConfigOptional>) -> (r: SourceConfig)
    ensures
        r == spec_resolve(default, custom),
        default.wf() ==> r.wf(),
{
    match custom {
        Some(c) => SourceConfig {
            inf_frame: override_stride(c.inf_frame, default.inf_frame),
            conf_threshold: override_unit(c.conf_threshold, default.conf_threshold),
            nms_iou_threshold: override_unit(c.nms_iou_threshold, default.nms_iou_threshold),
        },
        None => default,
    }
}

/// Source ids with the default settings and per-source overrides.
#[derive(Clone, Debug)]
pub struct SourcesConfig {
    pub ids: Vec<String>,
    pub default: SourceConfig,
    pub custom: Vec<(String, SourceConfigOptional)>,
}

/// The override listed for `id`, if any (the first one listed).
pub open spec fn spec_lookup(custom: Seq<(String, SourceConfigOptional)>, id: Seq<char>) -> Option<SourceConfigOptional>
    decreases custom.len(),
{
    if custom.len() == 0 {
        None
    } else if custom[0].0@ == id {
        Some(custom[0].1)
    } else {
        spec_lookup(custom.drop_first(), id)
    }
}

fn lookup(custom: &Vec<(String, SourceConfigOptional)>, id: &String) -> (r: Option<SourceConfigOptional>)
    ensures
        r == spec_lookup(custom@, id@),
{
    let mut i: usize = 0;
    proof {
        assert(custom@.skip(0) =~= custom@);
    }
    while i < custom.len()
        invariant
            i <= custom@.len(),
            spec_lookup(custom@, id@) == spec_lookup(custom@.skip(i as int), id@),
        decreases custom@.len() - i,
    {
        proof {
            assert(custom@.skip(i as int).drop_first() =~= custom@.skip(i + 1));
            assert(custom@.skip(i as int)[0] == custom@[i as int]);
        }
        if custom[i].0 == *id {
            return Some(custom[i].1);
        }
        i = i + 1;
    }
    None
}

impl SourcesConfig {
    /// Settings of each configured source, in id order: the defaults with
    /// the source's valid overrides applied.
    pub fn resolve(&self) -> (r: Vec<(String, SourceConfig)>)
        ensures
            r@.len() == self.ids@.len(),
            forall|i: int| 0 <= i < r@.len() ==> (#[trigger] r@[i]).0@ == self.ids@[i]@
                && r@[i].1 == spec_resolve(self.default, spec_lookup(self.custom@, self.ids@[i]@)),
    {
        let mut r: Vec<(String, SourceConfig)> = Vec::with_capacity(self.ids.len());
        let mut i: usize = 0;
        while i < self.ids.len()
            invariant
                i <= self.ids@.len(),
                r@.len() == i,
                forall|j: int| 0 <= j < i ==> (#[trigger] r@[j]).0@ == self.ids@[j]@
                    && r@[j].1 == spec_resolve(self.default, spec_lookup(self.custom@, self.ids@[j]@)),
            decreases self.ids@.len() - i,
        {
            let id = self.ids[i].clone();
            let custom = lookup(&self.custom, &id);
            r.push((id, resolve_source_config(self.default, custom)));
            i = i + 1;
        }
        r
    }
}

/// Model instances to load per model kind: one per source, saturating at
/// the largest count the gateway accepts.
pub fn instances_per_model(source_count: usize) -> (r: u32)
    ensures
        source_count <= u32::MAX ==> r == source_count,
        source_count > u32::MAX ==> r == u32::MAX,
{
    if source_count > u32::MAX as usize { u32::MAX } else { source_count as u32 }
}

impl InferencePrecision {
    pub open spec fn spec_model_data_type(self) -> Seq<char> {
        seq!['T', 'Y', 'P', 'E', '_'] + self.spec_name()
    }

    /// Data type tag of the model configuration document ("TYPE_FP32", "TYPE_FP16").
    pub fn model_data_type(&self) -> (r: String)
        ensures
            r@ == self.spec_model_data_type(),
    {
        let mut r = String::from_str("TYPE_");
        let name = self.to_string();
        r.append(name.as_str());
        proof {
            reveal_strlit("TYPE_");
            assert("TYPE_"@ =~= seq!['T', 'Y', 'P', 'E', '_']);
        }
        r
    }
}

/// GPU statistics as reported by the telemetry task.
#[derive(Clone, Debug)]
pub struct GPUStats {
    pub name: String,
    pub uuid: String,
    pub serial: String,
    pub memory_total: u64,
    pub memory_used: u64,
    pub memory_free: u64,
    pub util_perc: u32,
    pub memory_perc: u32,
}

/// Where the stream side publishes a source's DASH manifest.
#[derive(Clone, Debug)]
pub struct DashInfo {
    pub manifest_url: String,
}

} // verus!
