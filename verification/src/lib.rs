//! Information-theoretic observability: the discrete core.
//!
//! Drift between metric distributions is measured on histograms. This crate
//! holds the parts of that pipeline that decide and count: which inputs a
//! measure is defined on, how samples fall into bins and joint cells, how
//! time series are aligned for transfer entropy, how the pairwise causality
//! and correlation matrices are laid out, how a service's metrics collector
//! moves between recording, cooling and reset, and how detected patterns map
//! to an SRE state and a printed summary.

pub mod anomaly;
pub mod info;
pub mod metrics;
pub mod phase;

pub use anomaly::{causality_matrix, correlation_matrix};
pub use info::{
    bin_counts, clamp_bin, joint_counts_2d, joint_counts_3d, lagged_series, mass_outside_support,
    measurable, paired_len, tally_cells, Cell, LaggedSeries,
};
pub use metrics::{CoolingRate, Detectors, RecordError, ServiceMetrics};
pub use phase::{Pattern, PatternKind, PhaseDetector, SreState};
