//! One probe sample, as nodes send it and as the store keeps and returns it.

use vstd::prelude::*;

verus! {

/// One sample: which node, when (RFC 3339 text), which probe, and the value
/// as text (numeric probes write decimal text).
#[derive(Debug, PartialEq, Eq)]
pub struct ProbeDataPoint {
    pub node_id: String,
    pub timestamp: String,
    pub probe_type: String,
    pub probe_name: String,
    pub probe_value: String,
}

/// A row returned by a query: the same five fields as a stored sample.
pub type MetricDataPoint = ProbeDataPoint;

impl ProbeDataPoint {
    /// A field-by-field copy.
    pub fn duplicate(&self) -> (r: ProbeDataPoint)
        ensures
            r == *self,
    {
        ProbeDataPoint {
            node_id: self.node_id.clone(),
            timestamp: self.timestamp.clone(),
            probe_type: self.probe_type.clone(),
            probe_name: self.probe_name.clone(),
            probe_value: self.probe_value.clone(),
        }
    }
}

impl Clone for ProbeDataPoint {
    fn clone(&self) -> (r: ProbeDataPoint)
        ensures
            r == *self,
    {
        self.duplicate()
    }
}

} // verus!
