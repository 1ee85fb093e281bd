//! Battery telemetry engine: merges per-source readings that share a timestamp,
//! estimates charge and discharge power, plans report buckets and projects
//! the remaining runtime.
//!
//! All quantities are fixed-point integers: timestamps in milliseconds since
//! the Unix epoch, energies in milliwatt-hours, powers in milliwatts and
//! percentages in hundredths of a percent.
pub mod aggregate;
pub mod buckets;
pub mod config;
pub mod keys;
pub mod merge_laws;
pub mod metrics;
pub mod presets;
pub mod rates;
pub mod reading;
pub mod sample;
pub mod sort;
pub mod summary;
pub mod text;
pub mod timeframe;
pub mod units;

pub use aggregate::{aggregate_battery_metrics, merge_group, within_energy_limits, MergeError};
pub use buckets::{bucket_span_seconds, bucket_start, bucket_start_at};
pub use config::Config;
pub use metrics::MetricKind;
pub use presets::{metric_kinds_for_presets, normalize_presets, ReportPreset};
pub use rates::{
    average_charge_w, average_discharge_w, average_rates, estimate_runtime_hours, format_runtime,
    AverageRates,
};
pub use reading::{battery_sample, energy_mwh, RawBattery};
pub use sample::Sample;
pub use summary::{battery_bucket_stats, stats_by_bucket, BucketStats};
pub use text::{graph_file_name, sanitize_component};
pub use timeframe::{build_timeframe, since_timestamp, timeframe_seconds, Timeframe, TimeframeError};
pub use units::{format_percent, format_power};
