//! Engine of a status-bar sampler: maps per-interval counter activity onto a
//! green-to-red gradient, renders human-readable magnitudes, diffs counter
//! snapshots, reconciles hierarchical device names, and composes the output
//! records.  The OS-specific counter readers and the network lookups live
//! outside the library and hand it plain values.

pub mod cpu;
pub mod disk;
mod gradient;
pub mod inet;
mod magnitude;
mod normalize;
mod reconcile;
mod render;
mod snapshot;

pub use gradient::Ratio;
pub use gradient::get_color;
pub use gradient::lemma_gradient_saturation;
pub use magnitude::humanize;
pub use normalize::RATIO_SCALE;
pub use normalize::lemma_normalize_monotone;
pub use normalize::lemma_normalize_zero;
pub use normalize::normalize;
pub use reconcile::reconcile;
pub use snapshot::Snapshot;
pub use snapshot::Stat;
pub use snapshot::diff;
