//! Flags that tell a format how to treat a metric.

use vstd::prelude::*;

verus! {

/// How a metric is stored. The later one wins where two meet.
#[derive(Clone, Copy, Debug, PartialEq, Eq, Structural)]
pub enum StorageMode {
    /// One data point per second.
    HighStorageResolution,
    /// Present in the output, but not a metric.
    NoMetric,
}

/// The instrument that records a metric.
#[derive(Clone, Copy, Debug, PartialEq, Eq, Structural)]
pub enum InstrumentKind {
    Counter,
    UpDownCounter,
    Histogram,
    Gauge,
}

/// The options that a metric carries, if any.
#[derive(Clone, Copy, Debug, PartialEq, Eq, Structural)]
pub enum MetricFlags {
    /// No options.
    Empty,
    /// Options of the EMF format.
    Emf(StorageMode),
    /// The metric is a distribution.
    Distribution,
    /// Options of the OpenTelemetry output.
    Otel(InstrumentKind),
    /// The option that tests look for.
    TestFlag,
    /// Options that no format here reads, told apart by a number.
    Other(u64),
}

/// A type that makes a flag.
pub trait FlagConstructor {
    /// The flag that the type makes.
    open spec fn flags() -> MetricFlags {
        arbitrary()
    }

    /// Makes the flag.
    fn construct() -> (flags: MetricFlags)
        ensures
            flags == Self::flags(),
    ;
}

/// Makes metrics be stored each second.
pub struct HighStorageResolutionCtor;

impl FlagConstructor for HighStorageResolutionCtor {
    open spec fn flags() -> MetricFlags {
        MetricFlags::Emf(StorageMode::HighStorageResolution)
    }

    fn construct() -> (flags: MetricFlags) {
        MetricFlags::Emf(StorageMode::HighStorageResolution)
    }
}

/// Makes metrics be present in the output without being published.
pub struct NoMetricCtor;

impl FlagConstructor for NoMetricCtor {
    open spec fn flags() -> MetricFlags {
        MetricFlags::Emf(StorageMode::NoMetric)
    }

    fn construct() -> (flags: MetricFlags) {
        MetricFlags::Emf(StorageMode::NoMetric)
    }
}

/// The options of the EMF format.
#[derive(Clone, Copy, Debug, PartialEq, Eq, Structural)]
pub struct EmfOptions {
    pub storage_mode: StorageMode,
}

/// Which of two storage modes counts where they meet.
pub open spec fn stronger(a: StorageMode, b: StorageMode) -> StorageMode {
    if a == StorageMode::NoMetric || b == StorageMode::NoMetric {
        StorageMode::NoMetric
    } else {
        StorageMode::HighStorageResolution
    }
}

impl EmfOptions {
    /// The flags that these options and others come down to, if the others are options
    /// of the EMF format as well.
    pub fn try_merge(&self, other: MetricFlags) -> (res: Option<MetricFlags>)
        ensures
            res == match other {
                MetricFlags::Emf(mode) => Some(
                    MetricFlags::Emf(stronger(mode, self.storage_mode)),
                ),
                _ => None,
            },
    {
        match other {
            MetricFlags::Emf(mode) => match (mode, self.storage_mode) {
                (
                    StorageMode::HighStorageResolution,
                    StorageMode::HighStorageResolution,
                ) => Some(MetricFlags::Emf(StorageMode::HighStorageResolution)),
                _ => Some(MetricFlags::Emf(StorageMode::NoMetric)),
            },
            _ => None,
        }
    }
}

/// In which order storage modes meet makes no difference, and one that meets itself
/// stays.
pub proof fn merging_storage_modes(a: StorageMode, b: StorageMode, c: StorageMode)
    ensures
        stronger(a, b) == stronger(b, a),
        stronger(stronger(a, b), c) == stronger(a, stronger(b, c)),
        stronger(a, a) == a,
{
}

/// A metric that is not to be published is not published, whatever else is asked of it.
pub proof fn unpublished_metrics_stay_unpublished(a: StorageMode)
    ensures
        stronger(a, StorageMode::NoMetric) == StorageMode::NoMetric,
        stronger(StorageMode::NoMetric, a) == StorageMode::NoMetric,
        stronger(a, StorageMode::HighStorageResolution) == a,
{
}

/// The types that make flags of the EMF format make those that they are named after.
pub proof fn constructors_make_their_flags()
    ensures
        HighStorageResolutionCtor::flags() == MetricFlags::Emf(StorageMode::HighStorageResolution),
        NoMetricCtor::flags() == MetricFlags::Emf(StorageMode::NoMetric),
{
}

} // verus!
