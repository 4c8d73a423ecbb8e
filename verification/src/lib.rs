//! A minimal metrics data model (counters, gauges, histograms addressed by
//! name + ordered labels) together with a renderer that turns recorded
//! measurements into the Prometheus text exposition format.

pub mod key;
pub mod numfmt;
pub mod quantile;
pub mod recorder;
pub mod render;
pub mod sketch;

pub use key::{IntoKey, IntoLabels, Key, Label, ScopedString};
pub use numfmt::{i64_to_dec, u64_to_dec};
pub use quantile::{default_quantiles, parse_quantiles, Quantile, QuantileError};
pub use recorder::{
    get_prom_expo_header, AsNanoseconds, PrometheusRecorder, Recorder, Snapshot, SnapshotProvider,
};
pub use render::{key_to_parts, render_labeled_name};
pub use sketch::{Sketch, SketchError};
