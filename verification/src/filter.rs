//! The filter that a registry asks before it hands a metric out.

use crate::metrics::Metric;
use vstd::prelude::*;

verus! {

/// A filter to include/exclude some metrics based on its name,
/// type or actual data.
pub trait MetricsFilter: Send + Sync {
    fn accept(&self, name: &str, metric: &Metric) -> bool;
}

} // verus!
