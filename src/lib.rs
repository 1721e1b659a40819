//! Verified core of a multi-source video inference client: configuration,
//! tensor codec arithmetic, detection decoding with class-aware suppression,
//! the bounded frame queue and the per-source processing state machine.
pub mod config;
pub mod queue;
pub mod source;
pub mod letterbox;
pub mod fp16;
pub mod nms;
pub mod tensor;
pub mod yolo;
pub mod resize;
pub mod batching;
pub mod results;
pub mod video;
pub mod crop;
