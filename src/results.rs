use vstd::prelude::*;

use crate::portfolio::{City, Region};

verus! {

/// One line of the report: the baseline and the selected cost of one scope, in
/// whole monetary units.
#[derive(Debug, Clone, Copy, PartialEq, Eq, Structural)]
pub struct CostCalculationSummaryLine {
    pub scope: Scope,
    pub existing_cost: i32,
    pub selected_cost: i32,
}

/// What a report line covers.
#[derive(Debug, Clone, Copy, PartialEq, Eq, Structural)]
pub enum Scope {
    Group,
    Region(Region),
    City(City),
}

/// Why a cost calculation failed.
#[derive(Debug, Clone, Copy, PartialEq, Eq, Structural)]
pub enum CostError {
    /// The multiplier table has no entry for a category and city that are needed.
    ConfigurationError,
    /// The version has no single selection for a comparison in force, or the
    /// selection names an option that the comparison does not have.
    InvalidVersion,
    /// A city total does not fit the report's integer range.
    CostOverflow,
}

} // verus!
