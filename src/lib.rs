//! Deterministic daily targets for tracked intakes, and the day-bucketed
//! sums of what was logged against them.
pub mod model;
pub mod bounds;
pub mod date;
pub mod target;
pub mod logs;
pub mod report;
pub mod order;
