use vstd::prelude::*;

use crate::timeframe::Instant;

verus! {

/// Everything that can stop a run. Each error aborts the whole report.
#[derive(Debug)]
pub enum ReportError {
    /// Timeframe text outside the grammar.
    InvalidTimeframe { text: String },
    /// A list of label patterns that is not a valid set of regular expressions.
    InvalidPattern { field: String },
    /// A date-format pattern that cannot render the instant.
    InvalidDateFormat { format: String },
    /// Fewer releases exist than the relative offset asks for.
    NotEnoughReleases { requested: u8, found: usize },
    /// The resolved window starts after it ends.
    WindowOrder { from: Instant, to: Instant },
}

} // verus!
