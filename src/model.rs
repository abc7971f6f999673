//! Data points, plot points and the errors of a render pass.

use vstd::prelude::*;

verus! {

/// One observation of a series: a wire-format date-time and a download count.
#[derive(Clone, Debug, PartialEq, Eq)]
pub struct DataPoint {
    pub timestamp: String,
    pub count: u64,
}

impl DataPoint {
    pub fn new(timestamp: String, count: u64) -> (r: DataPoint)
        ensures
            r.timestamp@ == timestamp@,
            r.count == count,
    {
        DataPoint { timestamp, count }
    }

    /// A field-by-field copy that verified code can reason about.
    pub fn duplicate(&self) -> (r: DataPoint)
        ensures
            r == *self,
    {
        DataPoint { timestamp: self.timestamp.clone(), count: self.count }
    }
}

/// One point of a visual trace: epoch milliseconds and a count.
#[derive(Clone, Copy, Debug, PartialEq, Eq, Structural)]
pub struct PlotPoint {
    pub time: i64,
    pub count: u64,
}

/// Everything that ends a render pass.
#[derive(Clone, Copy, Debug, PartialEq, Eq, Structural)]
pub enum ChartError {
    MalformedTimestamp,
    EmptySeries,
    RenderError,
    AnnotationIndexOutOfRange,
    DataUnavailable,
}

} // verus!
