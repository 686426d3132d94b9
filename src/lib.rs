//! Streaming-and-analysis core of an audio visualiser: sample rings, the
//! device sink, the resampler staging, the level meter and the playback
//! worker's decisions.
//!
//! A sample travels through the library as the bit pattern of its 32-bit
//! float value, so `0` is silence (+0.0).

pub mod config;
pub mod layout;
pub mod meter;
pub mod resample;
pub mod ring;
pub mod sink;
pub mod worker;

pub use config::{SessionConfig, SessionError};
pub use layout::CopyMethod;
pub use meter::LevelMeter;
pub use resample::{BlockRouter, ChunkStager, Routed};
pub use ring::{RingBuffer, Sample};
pub use sink::DeviceSink;
pub use worker::{Worker, WorkerAction, WorkerEvent, WorkerState};
