//! Metric collection and benchmark-planning logic for L4S congestion-control
//! experiments: metric series, socket and qdisc statistics decoding, iperf3
//! result recording, scenario generation and progress reporting.

pub mod text;
pub mod metric_data_format;
pub mod socket_stats;
pub mod import_format;
pub mod exporter_store;
pub mod iperf;
pub mod qdisc;
pub mod router_store;
pub mod scenario;
pub mod generate;
pub mod progress;
pub mod victoria_series;
pub mod ss_exporter;
pub mod settings;
