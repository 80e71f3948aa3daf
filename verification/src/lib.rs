//! Aggregation core of a metrics push agent.
//!
//! Counter and gauge operations are merged into per-series sample streams,
//! and each flush hands out what was buffered and keeps only the running
//! value of every series as the seed of the next window.

pub mod batcher;
pub mod key;
pub mod push;
pub mod registry;
pub mod request;
pub mod sample;
pub mod store;

pub use batcher::{Action, Builder, Command, Event, MetricOperation, Worker};
pub use key::{Label, MetricKey};
pub use registry::Registry;
pub use sample::{Sample, Samples};
pub use store::{SampleStore, Series};
